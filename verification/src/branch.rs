//! Branches: the nodes of a fractal, each of which yields one line segment.

use vstd::prelude::*;

verus! {

/// Rule by which the direction of a branch is derived.
///
/// The base direction of a branch without a parent is the configured
/// direction of the fractal; otherwise it is the direction of the parent.
/// Angles are in radians.
#[derive(Clone, Copy, Debug, PartialEq, Eq, Structural)]
pub enum Turn {
    /// Initial arm of a single chain: `base + 2π / arms * index`.
    Spoke { index: u32, arms: u32 },
    /// Further link of a single chain: `base + angle_add`.
    Drift,
    /// One of several branches fanned evenly across the sweep:
    /// `base - sweep_angle / 2 + sweep_angle * index / gaps`.
    Fan { index: u32, gaps: u32 },
    /// A branch without siblings: `base`, unchanged.
    Straight,
}

impl Turn {
    /// Whether every division that the rule asks for has a non-zero divisor,
    /// and the index lies within the divisor's range.
    pub open spec fn well_formed(self) -> bool {
        match self {
            Turn::Spoke { index, arms } => 1 <= index <= arms,
            Turn::Drift => true,
            Turn::Fan { index, gaps } => gaps >= 1 && index <= gaps,
            Turn::Straight => true,
        }
    }
}

/// One node of a fractal as the generators emit it.
///
/// The segment of a branch starts where the segment of its parent ends, or
/// at the fractal's origin when it has no parent. Its length is the parent's
/// length scaled by the length factor, or the configured length when it has
/// no parent. Its direction follows from `turn`.
#[derive(Clone, Copy, Debug, PartialEq, Eq)]
pub struct Branch {
    /// Position, in the generated sequence, of the branch this one continues.
    pub parent: Option<usize>,
    /// How the direction is derived.
    pub turn: Turn,
    /// Recursion budget at this branch, itself included.
    pub depth_remaining: u32,
}

/// Mathematical view of a [`Branch`].
pub struct BranchModel {
    pub parent: Option<int>,
    pub turn: Turn,
    pub depth_remaining: nat,
}

impl View for Branch {
    type V = BranchModel;

    open spec fn view(&self) -> BranchModel {
        BranchModel {
            parent: match self.parent {
                Some(p) => Some(p as int),
                None => None,
            },
            turn: self.turn,
            depth_remaining: self.depth_remaining as nat,
        }
    }
}

/// Element-wise view of a sequence of branches.
pub open spec fn models(branches: Seq<Branch>) -> Seq<BranchModel> {
    branches.map_values(|b: Branch| b@)
}

impl BranchModel {
    /// The branch that continues this one when this one stands at position
    /// `at`: none if the budget is used up once this branch is drawn.
    pub open spec fn step(self, at: int, turn: Turn) -> Option<BranchModel> {
        if self.depth_remaining <= 1 {
            None
        } else {
            Some(
                BranchModel {
                    parent: Some(at),
                    turn,
                    depth_remaining: (self.depth_remaining - 1) as nat,
                },
            )
        }
    }
}

impl Branch {
    /// Takes one unit off the budget and, if any is left, returns the branch
    /// that continues this one from its end point, turned by `turn`.
    /// `at` is the position of this branch in the generated sequence.
    pub fn step(&self, at: usize, turn: Turn) -> (next: Option<Branch>)
        ensures
            next is Some <==> self.depth_remaining >= 2,
            match next {
                Some(b) => Some(b@) == self@.step(at as int, turn),
                None => self@.step(at as int, turn) is None,
            },
    {
        if self.depth_remaining <= 1 {
            None
        } else {
            Some(Branch { parent: Some(at), turn, depth_remaining: self.depth_remaining - 1 })
        }
    }
}

/// Records that pushing a branch extends the element-wise view by its view.
pub(crate) proof fn lemma_models_push(branches: Seq<Branch>, b: Branch)
    ensures
        models(branches.push(b)) == models(branches).push(b@),
{
    assert(models(branches.push(b)) =~= models(branches).push(b@));
}

/// Two sequences of branches with the same element-wise view are the same
/// sequence.
pub proof fn lemma_models_determine_branches(first: Seq<Branch>, second: Seq<Branch>)
    requires
        models(first) == models(second),
    ensures
        first == second,
{
    assert(first.len() == models(first).len());
    assert(second.len() == models(second).len());
    assert forall|i: int| 0 <= i < first.len() implies first[i] == second[i] by {
        assert(models(first)[i] == first[i]@);
        assert(models(second)[i] == second[i]@);
    }
    assert(first =~= second);
}

} // verus!
