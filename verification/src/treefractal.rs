//! The branching-tree fractal: its parameters, its clock and its generator.

use vstd::prelude::*;
use crate::branch::{models, Branch, BranchModel};
use crate::clock::{settled, sweep_span, within_cycle, wrap};
use crate::count::{lemma_tree_plan_len, tree_segment_count, tree_size};
use crate::fractal::AnimatedFractal;
use crate::geometry::{Point, Rgb, Stroke};
use crate::order::drawing_order;
use crate::scalar::Scalar;
use crate::tree::{tree_branches, tree_plan};

verus! {

/// Bit pattern of 1000: where the tree starts, from the left.
pub const START_X_BITS: u32 = 0x447A_0000;

/// Bit pattern of 500: where the tree starts, from the top.
pub const START_Y_BITS: u32 = 0x43FA_0000;

/// Bit pattern of three quarters of a turn: the starting direction, which
/// points up the screen.
pub const START_ANGLE_BITS: u32 = 0x4096_CBE4;

/// Bit pattern of 190: the starting length of the root branches.
pub const START_LENGTH_BITS: u32 = 0x433E_0000;

/// Bit pattern of a sixth of a turn: the starting sweep width.
pub const START_SWEEP_ANGLE_BITS: u32 = 0x3F86_0A92;

/// Bit pattern of six tenths: the starting length factor.
pub const START_LENGTH_FACTOR_BITS: u32 = 0x3F19_999A;

/// Bit pattern of one half: the starting stroke width.
pub const START_STROKE_WIDTH_BITS: u32 = 0x3F00_0000;

/// Bit pattern of fifteen hundredths: the starting speed of the sweep, in
/// radians per second.
pub const START_SWEEP_SPEED_BITS: u32 = 0x3E19_999A;

/// Parameters of the branching-tree fractal.
#[derive(Clone, Copy, Debug, PartialEq, Eq, Structural)]
pub struct TreeFractal {
    /// Start point of every root branch.
    pub origin: Point,
    /// Number of levels.
    pub depth: u32,
    /// Configured direction, in radians.
    pub angle: Scalar,
    /// Length of the root branches.
    pub length: Scalar,
    /// Angular width of every fan, in radians; cyclic over four turns.
    pub sweep_angle: Scalar,
    /// Factor by which each level is longer than the one before.
    pub length_factor: Scalar,
    /// Number of branches per fan.
    pub arms: u32,
    pub stroke: Stroke,
    /// Whether the origin is the centre of the viewport rather than a
    /// quarter of the viewport's height below it.
    pub centered: bool,
    /// Whether the sweep width grows with time.
    pub sweep_enabled: bool,
    /// Radians per second by which `sweep_angle` grows.
    pub sweep_speed: Scalar,
}

/// What the host measured and computed for one frame. The elapsed time is
/// the measured time as the clock admits it.
#[derive(Clone, Copy, Debug, PartialEq, Eq, Structural)]
pub struct TreeFrame {
    /// Centre of the viewport.
    pub center: Point,
    /// The centre moved down by a quarter of the viewport's height.
    pub lowered: Point,
    /// `sweep_angle` plus `sweep_speed` times the elapsed time.
    pub swept: Scalar,
}

impl TreeFractal {
    /// Whether the lengths are numbers that can be drawn.
    pub open spec fn visible(self) -> bool {
        self.length.finite() && self.length_factor.finite()
    }

    /// Number of branches of the current frame.
    pub open spec fn size(self) -> int {
        if self.visible() {
            tree_size(self.arms, self.depth)
        } else {
            0
        }
    }

    /// Whether the sweep width lies within four turns, their ends included.
    pub open spec fn in_cycle(self) -> bool {
        within_cycle(self.sweep_angle, sweep_span())
    }

    /// The sweep width before it is brought to rest: the host's sum if the
    /// sweep grows with time, else the value as it stands.
    pub open spec fn raw_sweep(self, frame: TreeFrame) -> Scalar {
        if self.sweep_enabled {
            frame.swept
        } else {
            self.sweep_angle
        }
    }

    /// The fixed configuration that the variant starts from.
    pub open spec fn spec_starting() -> TreeFractal {
        TreeFractal {
            origin: Point { x: Scalar { bits: START_X_BITS }, y: Scalar { bits: START_Y_BITS } },
            depth: 8,
            angle: Scalar { bits: START_ANGLE_BITS },
            length: Scalar { bits: START_LENGTH_BITS },
            sweep_angle: Scalar { bits: START_SWEEP_ANGLE_BITS },
            length_factor: Scalar { bits: START_LENGTH_FACTOR_BITS },
            arms: 3,
            stroke: Stroke {
                width: Scalar { bits: START_STROKE_WIDTH_BITS },
                color: Rgb { r: 255, g: 255, b: 255 },
            },
            centered: true,
            sweep_enabled: true,
            sweep_speed: Scalar { bits: START_SWEEP_SPEED_BITS },
        }
    }

    /// The fixed configuration that the variant starts from: fans of three
    /// over eight levels, pointing upwards, the root branches 190 long and
    /// each level six tenths of the one before, in white.
    #[verifier::when_used_as_spec(spec_starting)]
    pub fn starting() -> (fractal: TreeFractal)
        ensures
            fractal == Self::spec_starting(),
            fractal.visible(),
            fractal.in_cycle(),
    {
        TreeFractal {
            origin: Point { x: Scalar { bits: START_X_BITS }, y: Scalar { bits: START_Y_BITS } },
            depth: 8,
            angle: Scalar { bits: START_ANGLE_BITS },
            length: Scalar { bits: START_LENGTH_BITS },
            sweep_angle: Scalar { bits: START_SWEEP_ANGLE_BITS },
            length_factor: Scalar { bits: START_LENGTH_FACTOR_BITS },
            arms: 3,
            stroke: Stroke {
                width: Scalar { bits: START_STROKE_WIDTH_BITS },
                color: Rgb { r: 255, g: 255, b: 255 },
            },
            centered: true,
            sweep_enabled: true,
            sweep_speed: Scalar { bits: START_SWEEP_SPEED_BITS },
        }
    }
}

impl AnimatedFractal for TreeFractal {
    type Frame = TreeFrame;

    open spec fn plan(&self) -> Seq<BranchModel> {
        if self.visible() {
            tree_plan(self.arms, self.depth)
        } else {
            Seq::empty()
        }
    }

    open spec fn advanced(&self, frame: &TreeFrame) -> TreeFractal {
        TreeFractal {
            origin: if self.centered {
                frame.center
            } else {
                frame.lowered
            },
            sweep_angle: settled(self.raw_sweep(*frame), sweep_span()),
            ..*self
        }
    }

    /// Advances the animation by one frame. The origin moves to the centre
    /// of the viewport, or below it if the tree is not centred. The sweep
    /// width takes the host's sum if the sweep is switched on, and is then
    /// brought to rest within four turns. Nothing else changes.
    fn advance(&mut self, frame: &TreeFrame)
        ensures
            !old(self).raw_sweep(*frame).nan() ==> final(self).in_cycle(),
    {
        self.origin = if self.centered {
            frame.center
        } else {
            frame.lowered
        };
        let swept = if self.sweep_enabled {
            frame.swept
        } else {
            self.sweep_angle
        };
        self.sweep_angle = wrap(swept, sweep_span());
    }

    /// Generates the branches of the current frame, depth first and within
    /// each fan in ascending order. Lengths that are not finite leave
    /// nothing to draw.
    fn generate_segments(&self) -> (out: Vec<Branch>)
        ensures
            out@.len() == self.size(),
            drawing_order(models(out@), self.depth as nat),
            self.arms == 0 || self.depth == 0 ==> out@.len() == 0,
            self.arms == 1 && self.visible() ==> out@.len() == self.depth,
    {
        if self.length.is_finite() && self.length_factor.is_finite() {
            tree_branches(self.arms, self.depth)
        } else {
            let out: Vec<Branch> = Vec::new();
            assert(models(out@) =~= self.plan());
            out
        }
    }

    fn segment_count(&self) -> (count: Option<usize>)
        ensures
            match count {
                Some(n) => n == self.size(),
                None => self.size() > usize::MAX,
            },
    {
        proof {
            lemma_tree_plan_len(self.arms, self.depth);
        }
        if self.length.is_finite() && self.length_factor.is_finite() {
            tree_segment_count(self.arms, self.depth)
        } else {
            Some(0)
        }
    }
}

/// The clock changes the sweep and the origin only: a frame later the same
/// branches are generated.
pub proof fn lemma_tree_advance_keeps_plan(fractal: TreeFractal, frame: TreeFrame)
    ensures
        fractal.advanced(&frame).plan() == fractal.plan(),
{
}

} // verus!
