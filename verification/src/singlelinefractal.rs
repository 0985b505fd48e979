//! The single-chain fractal: its parameters, its clock and its generator.

use vstd::prelude::*;
use crate::branch::{models, Branch, BranchModel};
use crate::chain::{chain_branches, chain_plan};
use crate::clock::{full_turn, settled, within_cycle, wrap};
use crate::count::{chain_segment_count, chain_size, lemma_chain_plan_len};
use crate::fractal::AnimatedFractal;
use crate::geometry::{Point, Rgb, Stroke};
use crate::order::drawing_order;
use crate::scalar::Scalar;

verus! {

/// Bit pattern of 1000: where the figure starts, from the left.
pub const START_X_BITS: u32 = 0x447A_0000;

/// Bit pattern of 500: where the figure starts, from the top.
pub const START_Y_BITS: u32 = 0x43FA_0000;

/// Bit pattern of 220: the starting length of the first link.
pub const START_LENGTH_BITS: u32 = 0x435C_0000;

/// Bit pattern of a sixth of a turn: the starting turn between links.
pub const START_ANGLE_ADD_BITS: u32 = 0x3F86_0A92;

/// Bit pattern of one and a hundredth: the starting length factor.
pub const START_LENGTH_FACTOR_BITS: u32 = 0x3F81_47AE;

/// Bit pattern of one half: the starting stroke width.
pub const START_STROKE_WIDTH_BITS: u32 = 0x3F00_0000;

/// Bit pattern of a twentieth: the starting speed of the turn between
/// links, in radians per second.
pub const START_ARM_ROTATION_SPEED_BITS: u32 = 0x3D4C_CCCD;

/// Bit pattern of a quarter: the starting speed of the whole figure, in
/// radians per second.
pub const START_WHOLE_ROTATION_SPEED_BITS: u32 = 0x3E80_0000;

/// Where the first link of every arm starts, and with what.
#[derive(Clone, Copy, Debug, PartialEq, Eq, Structural)]
pub struct SingleLineRotatedFractalNode {
    /// Start point of every arm.
    pub origin: Point,
    /// Number of links per arm.
    pub depth: u32,
    /// Configured direction, in radians.
    pub angle: Scalar,
    /// Length of the first link.
    pub length: Scalar,
}

/// Parameters of the single-chain fractal.
#[derive(Clone, Copy, Debug, PartialEq, Eq, Structural)]
pub struct SingleLineRotatedFractal {
    pub node: SingleLineRotatedFractalNode,
    /// Turn between one link and the next, in radians; cyclic over one turn.
    pub angle_add: Scalar,
    /// Factor by which each link is longer than the one before.
    pub length_factor: Scalar,
    /// Number of arms.
    pub arms: u32,
    pub stroke: Stroke,
    /// Rotation of the whole figure, in radians, which is added to the
    /// configured direction; cyclic over one turn.
    pub whole_rotation_angle: Scalar,
    /// Radians per second by which `angle_add` grows.
    pub arm_rotation_speed: Scalar,
    /// Radians per second by which `whole_rotation_angle` grows.
    pub whole_rotation_speed: Scalar,
    /// Whether the whole figure spins.
    pub spin_enabled: bool,
    /// Whether `angle_add` grows with time.
    pub angle_add_increment_enabled: bool,
}

/// What the host measured and computed for one frame. The elapsed time is
/// the measured time as the clock admits it.
#[derive(Clone, Copy, Debug, PartialEq, Eq, Structural)]
pub struct ChainFrame {
    /// Centre of the viewport.
    pub center: Point,
    /// `whole_rotation_angle` plus `whole_rotation_speed` times the elapsed
    /// time.
    pub spun: Scalar,
    /// `angle_add` plus `arm_rotation_speed` times the elapsed time.
    pub drifted: Scalar,
}

impl SingleLineRotatedFractal {
    /// Whether the lengths are numbers that can be drawn.
    pub open spec fn visible(self) -> bool {
        self.node.length.finite() && self.length_factor.finite()
    }

    /// Number of branches of the current frame.
    pub open spec fn size(self) -> int {
        if self.visible() {
            chain_size(self.arms, self.node.depth)
        } else {
            0
        }
    }

    /// Whether both cyclic values lie within one turn, its ends included.
    pub open spec fn in_cycle(self) -> bool {
        &&& within_cycle(self.whole_rotation_angle, full_turn())
        &&& within_cycle(self.angle_add, full_turn())
    }

    /// The rotation of the whole figure before it is brought to rest: the
    /// host's sum if the figure spins, else the value as it stands.
    pub open spec fn raw_rotation(self, frame: ChainFrame) -> Scalar {
        if self.spin_enabled {
            frame.spun
        } else {
            self.whole_rotation_angle
        }
    }

    /// The per-link turn before it is brought to rest: the host's sum if it
    /// grows with time, else the value as it stands.
    pub open spec fn raw_angle_add(self, frame: ChainFrame) -> Scalar {
        if self.angle_add_increment_enabled {
            frame.drifted
        } else {
            self.angle_add
        }
    }

    /// The fixed configuration that the variant starts from.
    pub open spec fn spec_starting() -> SingleLineRotatedFractal {
        SingleLineRotatedFractal {
            node: SingleLineRotatedFractalNode {
                origin: Point {
                    x: Scalar { bits: START_X_BITS },
                    y: Scalar { bits: START_Y_BITS },
                },
                depth: 35,
                angle: Scalar { bits: 0 },
                length: Scalar { bits: START_LENGTH_BITS },
            },
            angle_add: Scalar { bits: START_ANGLE_ADD_BITS },
            length_factor: Scalar { bits: START_LENGTH_FACTOR_BITS },
            arms: 3,
            stroke: Stroke {
                width: Scalar { bits: START_STROKE_WIDTH_BITS },
                color: Rgb { r: 255, g: 0, b: 0 },
            },
            whole_rotation_angle: Scalar { bits: 0 },
            arm_rotation_speed: Scalar { bits: START_ARM_ROTATION_SPEED_BITS },
            whole_rotation_speed: Scalar { bits: START_WHOLE_ROTATION_SPEED_BITS },
            spin_enabled: true,
            angle_add_increment_enabled: true,
        }
    }

    /// The fixed configuration that the variant starts from: three arms of
    /// 35 links, the first 220 long and each further one longer by a
    /// hundredth, turning by a sixth of a turn per link, in red.
    #[verifier::when_used_as_spec(spec_starting)]
    pub fn starting() -> (fractal: SingleLineRotatedFractal)
        ensures
            fractal == Self::spec_starting(),
            fractal.visible(),
            fractal.in_cycle(),
    {
        SingleLineRotatedFractal {
            node: SingleLineRotatedFractalNode {
                origin: Point {
                    x: Scalar { bits: START_X_BITS },
                    y: Scalar { bits: START_Y_BITS },
                },
                depth: 35,
                angle: Scalar { bits: 0 },
                length: Scalar { bits: START_LENGTH_BITS },
            },
            angle_add: Scalar { bits: START_ANGLE_ADD_BITS },
            length_factor: Scalar { bits: START_LENGTH_FACTOR_BITS },
            arms: 3,
            stroke: Stroke {
                width: Scalar { bits: START_STROKE_WIDTH_BITS },
                color: Rgb { r: 255, g: 0, b: 0 },
            },
            whole_rotation_angle: Scalar { bits: 0 },
            arm_rotation_speed: Scalar { bits: START_ARM_ROTATION_SPEED_BITS },
            whole_rotation_speed: Scalar { bits: START_WHOLE_ROTATION_SPEED_BITS },
            spin_enabled: true,
            angle_add_increment_enabled: true,
        }
    }
}

impl AnimatedFractal for SingleLineRotatedFractal {
    type Frame = ChainFrame;

    open spec fn plan(&self) -> Seq<BranchModel> {
        if self.visible() {
            chain_plan(self.arms, self.node.depth)
        } else {
            Seq::empty()
        }
    }

    open spec fn advanced(&self, frame: &ChainFrame) -> SingleLineRotatedFractal {
        SingleLineRotatedFractal {
            node: SingleLineRotatedFractalNode { origin: frame.center, ..self.node },
            whole_rotation_angle: settled(self.raw_rotation(*frame), full_turn()),
            angle_add: settled(self.raw_angle_add(*frame), full_turn()),
            ..*self
        }
    }

    /// Advances the animation by one frame. The origin moves to the centre
    /// of the viewport. Each cyclic value takes the host's sum if its
    /// animation is switched on, and is then brought to rest within one
    /// turn. Nothing else changes.
    fn advance(&mut self, frame: &ChainFrame)
        ensures
            !old(self).raw_rotation(*frame).nan() && !old(self).raw_angle_add(*frame).nan()
                ==> final(self).in_cycle(),
    {
        self.node.origin = frame.center;
        let spun = if self.spin_enabled {
            frame.spun
        } else {
            self.whole_rotation_angle
        };
        self.whole_rotation_angle = wrap(spun, full_turn());
        let drifted = if self.angle_add_increment_enabled {
            frame.drifted
        } else {
            self.angle_add
        };
        self.angle_add = wrap(drifted, full_turn());
    }

    /// Generates the branches of the current frame: `arms` chains of `depth`
    /// links, arm by arm. Lengths that are not finite leave nothing to draw.
    fn generate_segments(&self) -> (out: Vec<Branch>)
        ensures
            out@.len() == self.size(),
            drawing_order(models(out@), self.node.depth as nat),
            self.arms == 0 || self.node.depth == 0 ==> out@.len() == 0,
    {
        if self.node.length.is_finite() && self.length_factor.is_finite() {
            chain_branches(self.arms, self.node.depth)
        } else {
            let out: Vec<Branch> = Vec::new();
            assert(models(out@) =~= self.plan());
            out
        }
    }

    fn segment_count(&self) -> (count: Option<usize>)
        ensures
            match count {
                Some(n) => n == self.size(),
                None => self.size() > usize::MAX,
            },
    {
        proof {
            lemma_chain_plan_len(self.arms, self.node.depth);
        }
        if self.node.length.is_finite() && self.length_factor.is_finite() {
            chain_segment_count(self.arms, self.node.depth)
        } else {
            Some(0)
        }
    }
}

/// The clock changes directions and the origin only: a frame later the
/// same branches are generated.
pub proof fn lemma_chain_advance_keeps_plan(fractal: SingleLineRotatedFractal, frame: ChainFrame)
    ensures
        fractal.advanced(&frame).plan() == fractal.plan(),
{
}

} // verus!
