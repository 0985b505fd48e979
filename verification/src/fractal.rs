//! The contract that both fractal variants share.

use vstd::prelude::*;
use crate::branch::{lemma_models_determine_branches, models, Branch, BranchModel};

verus! {

/// An animated fractal: once per frame the host advances it and then draws
/// the branches that it generates.
pub trait AnimatedFractal: Sized {
    /// What the host measured and computed for one frame.
    type Frame;

    /// The branches of the current frame, in drawing order.
    spec fn plan(&self) -> Seq<BranchModel>;

    /// The parameters after one frame.
    spec fn advanced(&self, frame: &Self::Frame) -> Self;

    /// Advances the animation by one frame.
    fn advance(&mut self, frame: &Self::Frame)
        ensures
            *final(self) == old(self).advanced(frame),
    ;

    /// Generates the branches of the current frame. The parameters stay as
    /// they are.
    fn generate_segments(&self) -> (out: Vec<Branch>)
        ensures
            models(out@) == self.plan(),
    ;

    /// Number of branches of the current frame, if a sequence can be that
    /// long on this machine.
    fn segment_count(&self) -> (count: Option<usize>)
        ensures
            match count {
                Some(n) => n == self.plan().len(),
                None => self.plan().len() > usize::MAX,
            },
    ;
}

/// Generating twice from the same parameters gives the same branches in
/// the same order.
pub proof fn lemma_generation_repeats<F: AnimatedFractal>(
    fractal: F,
    first: Seq<Branch>,
    second: Seq<Branch>,
)
    requires
        models(first) == fractal.plan(),
        models(second) == fractal.plan(),
    ensures
        first == second,
{
    lemma_models_determine_branches(first, second);
}

} // verus!
