use line_fractal::chain::chain_branches;
use line_fractal::geometry::{Point, Rgb};
use line_fractal::fractal::AnimatedFractal;
use line_fractal::scalar::Scalar;
use line_fractal::singlelinefractal::{ChainFrame, SingleLineRotatedFractal};
use line_fractal::tree::tree_branches;
use line_fractal::treefractal::{TreeFractal, TreeFrame};
use std::f32::consts::PI;

fn s(x: f32) -> Scalar {
    Scalar::from_bits(x.to_bits())
}

fn f(x: Scalar) -> f32 {
    f32::from_bits(x.bits)
}

fn point(x: f32, y: f32) -> Point {
    Point { x: s(x), y: s(y) }
}

#[test]
fn the_chain_starts_from_its_fixed_configuration() {
    let c = SingleLineRotatedFractal::starting();
    assert_eq!(f(c.node.origin.x), 1000.0);
    assert_eq!(f(c.node.origin.y), 500.0);
    assert_eq!(c.node.depth, 35);
    assert_eq!(f(c.node.angle), 0.0);
    assert_eq!(f(c.node.length), 220.0);
    assert_eq!(f(c.angle_add), PI / 3.0);
    assert_eq!(f(c.length_factor), 1.01);
    assert_eq!(c.arms, 3);
    assert_eq!(f(c.stroke.width), 0.5);
    assert_eq!(c.stroke.color, Rgb { r: 255, g: 0, b: 0 });
    assert_eq!(f(c.whole_rotation_angle), 0.0);
    assert_eq!(f(c.arm_rotation_speed), 0.05);
    assert_eq!(f(c.whole_rotation_speed), 0.25);
    assert!(c.spin_enabled);
    assert!(c.angle_add_increment_enabled);
}

#[test]
fn the_tree_starts_from_its_fixed_configuration() {
    let t = TreeFractal::starting();
    assert_eq!(f(t.origin.x), 1000.0);
    assert_eq!(f(t.origin.y), 500.0);
    assert_eq!(t.depth, 8);
    assert_eq!(f(t.angle), PI * 3. / 2.);
    assert_eq!(f(t.length), 190.0);
    assert_eq!(f(t.sweep_angle), PI / 3.0);
    assert_eq!(f(t.length_factor), 0.6);
    assert_eq!(t.arms, 3);
    assert_eq!(f(t.stroke.width), 0.5);
    assert_eq!(t.stroke.color, Rgb { r: 255, g: 255, b: 255 });
    assert!(t.centered);
    assert!(t.sweep_enabled);
    assert_eq!(f(t.sweep_speed), 0.15);
}

#[test]
fn the_starting_chain_has_105_branches() {
    let c = SingleLineRotatedFractal::starting();
    assert_eq!(c.generate_segments().len(), 105);
    assert_eq!(c.segment_count(), Some(105));
    assert_eq!(c.generate_segments(), chain_branches(3, 35));
}

#[test]
fn the_starting_tree_has_9840_branches() {
    let t = TreeFractal::starting();
    assert_eq!(t.generate_segments().len(), 9840);
    assert_eq!(t.segment_count(), Some(9840));
    assert_eq!(t.generate_segments(), tree_branches(3, 8));
}

#[test]
fn generating_twice_gives_the_same_chain() {
    let c = SingleLineRotatedFractal::starting();
    let before = c;
    let first = c.generate_segments();
    let second = c.generate_segments();
    assert_eq!(first, second);
    assert_eq!(c, before);
}

#[test]
fn generating_twice_gives_the_same_tree() {
    let mut t = TreeFractal::starting();
    t.depth = 5;
    let before = t;
    let first = t.generate_segments();
    let second = t.generate_segments();
    assert_eq!(first, second);
    assert_eq!(t, before);
}

#[test]
fn equal_parameters_give_equal_branches() {
    let mut a = TreeFractal::starting();
    let mut b = TreeFractal::starting();
    a.depth = 4;
    b.depth = 4;
    a.arms = 4;
    b.arms = 4;
    assert_eq!(a.generate_segments(), b.generate_segments());
}

#[test]
fn zero_depth_leaves_nothing_to_draw() {
    let mut c = SingleLineRotatedFractal::starting();
    c.node.depth = 0;
    assert!(c.generate_segments().is_empty());
    assert_eq!(c.segment_count(), Some(0));
    let mut t = TreeFractal::starting();
    t.depth = 0;
    assert!(t.generate_segments().is_empty());
    assert_eq!(t.segment_count(), Some(0));
}

#[test]
fn zero_arms_leave_nothing_to_draw() {
    let mut c = SingleLineRotatedFractal::starting();
    c.arms = 0;
    assert!(c.generate_segments().is_empty());
    assert_eq!(c.segment_count(), Some(0));
    let mut t = TreeFractal::starting();
    t.arms = 0;
    assert!(t.generate_segments().is_empty());
    assert_eq!(t.segment_count(), Some(0));
}

#[test]
fn a_single_armed_tree_is_one_chain() {
    let mut t = TreeFractal::starting();
    t.arms = 1;
    assert_eq!(t.generate_segments().len(), 8);
    assert_eq!(t.segment_count(), Some(8));
}

#[test]
fn lengths_that_are_no_numbers_leave_nothing_to_draw() {
    for bad in [f32::NAN, f32::INFINITY, f32::NEG_INFINITY] {
        let mut c = SingleLineRotatedFractal::starting();
        c.node.length = s(bad);
        assert!(c.generate_segments().is_empty());
        assert_eq!(c.segment_count(), Some(0));
        let mut c = SingleLineRotatedFractal::starting();
        c.length_factor = s(bad);
        assert!(c.generate_segments().is_empty());
        let mut t = TreeFractal::starting();
        t.length = s(bad);
        assert!(t.generate_segments().is_empty());
        assert_eq!(t.segment_count(), Some(0));
        let mut t = TreeFractal::starting();
        t.length_factor = s(bad);
        assert!(t.generate_segments().is_empty());
    }
}

#[test]
fn the_chain_clock_takes_the_sums_of_the_frame() {
    let mut c = SingleLineRotatedFractal::starting();
    let before = c;
    let dt = 0.5f32;
    let frame = ChainFrame {
        center: point(640.0, 360.0),
        spun: s(f(c.whole_rotation_angle) + f(c.whole_rotation_speed) * dt),
        drifted: s(f(c.angle_add) + f(c.arm_rotation_speed) * dt),
    };
    c.advance(&frame);
    assert_eq!(c.node.origin, point(640.0, 360.0));
    assert_eq!(f(c.whole_rotation_angle), 0.125);
    assert_eq!(f(c.angle_add), PI / 3.0 + 0.05 * 0.5);
    let mut expected = before;
    expected.node.origin = c.node.origin;
    expected.whole_rotation_angle = c.whole_rotation_angle;
    expected.angle_add = c.angle_add;
    assert_eq!(c, expected);
}

#[test]
fn the_chain_clock_ignores_sums_that_are_switched_off() {
    let mut c = SingleLineRotatedFractal::starting();
    c.spin_enabled = false;
    c.angle_add_increment_enabled = false;
    c.whole_rotation_angle = s(1.5);
    let frame = ChainFrame { center: point(1.0, 2.0), spun: s(3.0), drifted: s(4.0) };
    c.advance(&frame);
    assert_eq!(f(c.whole_rotation_angle), 1.5);
    assert_eq!(f(c.angle_add), PI / 3.0);
    assert_eq!(c.node.origin, point(1.0, 2.0));
}

#[test]
fn the_chain_clock_settles_values_that_are_switched_off() {
    let mut c = SingleLineRotatedFractal::starting();
    c.spin_enabled = false;
    c.angle_add_increment_enabled = false;
    c.whole_rotation_angle = s(2.0 * PI);
    c.angle_add = s(-1.0);
    let frame = ChainFrame { center: point(1.0, 2.0), spun: s(3.0), drifted: s(4.0) };
    c.advance(&frame);
    assert_eq!(f(c.whole_rotation_angle), 0.0);
    assert_eq!(f(c.angle_add), 2.0 * PI);
}

#[test]
fn the_chain_clock_snaps_at_both_ends_of_the_turn() {
    let mut c = SingleLineRotatedFractal::starting();
    c.angle_add = s(2.0 * PI - 0.01);
    c.whole_rotation_angle = s(0.01);
    c.whole_rotation_speed = s(-0.25);
    let dt = 1.0f32;
    let frame = ChainFrame {
        center: point(0.0, 0.0),
        spun: s(f(c.whole_rotation_angle) + f(c.whole_rotation_speed) * dt),
        drifted: s(f(c.angle_add) + f(c.arm_rotation_speed) * dt),
    };
    c.advance(&frame);
    assert_eq!(f(c.angle_add), 0.0);
    assert_eq!(f(c.whole_rotation_angle), 2.0 * PI);
}

#[test]
fn the_tree_clock_takes_the_sum_of_the_frame() {
    let mut t = TreeFractal::starting();
    let before = t;
    let dt = 2.0f32;
    let frame = TreeFrame {
        center: point(640.0, 360.0),
        lowered: point(640.0, 540.0),
        swept: s(f(t.sweep_angle) + f(t.sweep_speed) * dt),
    };
    t.advance(&frame);
    assert_eq!(t.origin, point(640.0, 360.0));
    assert_eq!(f(t.sweep_angle), PI / 3.0 + 0.15 * 2.0);
    let mut expected = before;
    expected.origin = t.origin;
    expected.sweep_angle = t.sweep_angle;
    assert_eq!(t, expected);
}

#[test]
fn a_tree_that_is_not_centred_stands_lower() {
    let mut t = TreeFractal::starting();
    t.centered = false;
    t.sweep_enabled = false;
    let frame =
        TreeFrame { center: point(640.0, 360.0), lowered: point(640.0, 540.0), swept: s(9.0) };
    t.advance(&frame);
    assert_eq!(t.origin, point(640.0, 540.0));
    assert_eq!(f(t.sweep_angle), PI / 3.0);
}

#[test]
fn the_tree_clock_snaps_at_both_ends_of_the_sweep() {
    let mut t = TreeFractal::starting();
    let frame =
        TreeFrame { center: point(0.0, 0.0), lowered: point(0.0, 1.0), swept: s(8.0 * PI + 0.5) };
    t.advance(&frame);
    assert_eq!(f(t.sweep_angle), 0.0);
    let frame = TreeFrame { center: point(0.0, 0.0), lowered: point(0.0, 1.0), swept: s(-0.5) };
    t.advance(&frame);
    assert_eq!(f(t.sweep_angle), 8.0 * PI);
    let frame = TreeFrame { center: point(0.0, 0.0), lowered: point(0.0, 1.0), swept: s(20.0) };
    t.advance(&frame);
    assert_eq!(f(t.sweep_angle), 20.0);
}

#[test]
fn the_clock_does_not_change_what_is_generated() {
    let mut c = SingleLineRotatedFractal::starting();
    let first = c.generate_segments();
    c.advance(&ChainFrame { center: point(3.0, 4.0), spun: s(1.0), drifted: s(2.0) });
    assert_eq!(c.generate_segments(), first);
    let mut t = TreeFractal::starting();
    t.depth = 4;
    let first = t.generate_segments();
    t.advance(&TreeFrame { center: point(3.0, 4.0), lowered: point(3.0, 5.0), swept: s(1.0) });
    assert_eq!(t.generate_segments(), first);
}

#[test]
fn the_starting_values_are_the_patterns_of_their_numbers() {
    assert_eq!(f32::from_bits(line_fractal::singlelinefractal::START_X_BITS), 1000.0);
    assert_eq!(f32::from_bits(line_fractal::singlelinefractal::START_Y_BITS), 500.0);
    assert_eq!(f32::from_bits(line_fractal::singlelinefractal::START_LENGTH_BITS), 220.0);
    assert_eq!(f32::from_bits(line_fractal::singlelinefractal::START_ANGLE_ADD_BITS), PI / 3.0);
    assert_eq!(f32::from_bits(line_fractal::singlelinefractal::START_LENGTH_FACTOR_BITS), 1.01);
    assert_eq!(f32::from_bits(line_fractal::singlelinefractal::START_STROKE_WIDTH_BITS), 0.5);
    assert_eq!(f32::from_bits(line_fractal::singlelinefractal::START_ARM_ROTATION_SPEED_BITS), 0.05);
    assert_eq!(f32::from_bits(line_fractal::singlelinefractal::START_WHOLE_ROTATION_SPEED_BITS), 0.25);
    assert_eq!(f32::from_bits(line_fractal::treefractal::START_X_BITS), 1000.0);
    assert_eq!(f32::from_bits(line_fractal::treefractal::START_Y_BITS), 500.0);
    assert_eq!(f32::from_bits(line_fractal::treefractal::START_ANGLE_BITS), PI * 3. / 2.);
    assert_eq!(f32::from_bits(line_fractal::treefractal::START_LENGTH_BITS), 190.0);
    assert_eq!(f32::from_bits(line_fractal::treefractal::START_SWEEP_ANGLE_BITS), PI / 3.0);
    assert_eq!(f32::from_bits(line_fractal::treefractal::START_LENGTH_FACTOR_BITS), 0.6);
    assert_eq!(f32::from_bits(line_fractal::treefractal::START_STROKE_WIDTH_BITS), 0.5);
    assert_eq!(f32::from_bits(line_fractal::treefractal::START_SWEEP_SPEED_BITS), 0.15);
}

#[test]
fn the_starting_values_lie_within_their_cycles() {
    let c = SingleLineRotatedFractal::starting();
    assert!(0.0 <= f(c.angle_add) && f(c.angle_add) < 2.0 * PI);
    assert!(0.0 <= f(c.whole_rotation_angle) && f(c.whole_rotation_angle) < 2.0 * PI);
    let t = TreeFractal::starting();
    assert!(0.0 <= f(t.sweep_angle) && f(t.sweep_angle) < 8.0 * PI);
}

#[test]
fn a_long_run_of_frames_stays_within_the_cycle() {
    let mut c = SingleLineRotatedFractal::starting();
    c.whole_rotation_speed = s(5.0);
    c.arm_rotation_speed = s(5.0);
    let mut t = TreeFractal::starting();
    t.sweep_speed = s(-1.0);
    for _ in 0..2000 {
        let dt = 0.016f32;
        c.advance(&ChainFrame {
            center: point(0.0, 0.0),
            spun: s(f(c.whole_rotation_angle) + f(c.whole_rotation_speed) * dt),
            drifted: s(f(c.angle_add) + f(c.arm_rotation_speed) * dt),
        });
        assert!(0.0 <= f(c.angle_add) && f(c.angle_add) <= 2.0 * PI);
        assert!(0.0 <= f(c.whole_rotation_angle) && f(c.whole_rotation_angle) <= 2.0 * PI);
        t.advance(&TreeFrame {
            center: point(0.0, 0.0),
            lowered: point(0.0, 0.0),
            swept: s(f(t.sweep_angle) + f(t.sweep_speed) * dt),
        });
        assert!(0.0 <= f(t.sweep_angle) && f(t.sweep_angle) <= 8.0 * PI);
    }
}
