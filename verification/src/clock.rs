//! The animation clock: how elapsed time is admitted and how a cyclic value
//! settles once the frame's increment has been added to it.

use vstd::prelude::*;
use crate::scalar::Scalar;

verus! {

/// Bit pattern of one full turn, `2π`.
pub const FULL_TURN_BITS: u32 = 0x40C9_0FDB;

/// Bit pattern of four full turns, `8π`: the span of the sweep width.
pub const SWEEP_SPAN_BITS: u32 = 0x41C9_0FDB;

/// One full turn.
pub open spec fn spec_full_turn() -> Scalar {
    Scalar { bits: FULL_TURN_BITS }
}

/// One full turn.
#[verifier::when_used_as_spec(spec_full_turn)]
pub fn full_turn() -> (turn: Scalar)
    ensures
        turn == spec_full_turn(),
{
    Scalar { bits: FULL_TURN_BITS }
}

/// Four full turns.
pub open spec fn spec_sweep_span() -> Scalar {
    Scalar { bits: SWEEP_SPAN_BITS }
}

/// Four full turns.
#[verifier::when_used_as_spec(spec_sweep_span)]
pub fn sweep_span() -> (span: Scalar)
    ensures
        span == spec_sweep_span(),
{
    Scalar { bits: SWEEP_SPAN_BITS }
}

/// The time that a frame is allowed to advance the animation by: the
/// measured time if it is positive, otherwise none.
pub open spec fn admitted(dt: Scalar) -> Scalar {
    if Scalar::zero().below(dt) {
        dt
    } else {
        Scalar::zero()
    }
}

/// Where a raw cyclic value comes to rest in the cycle from zero up to
/// `period`. A value at or beyond the period snaps to zero, a value below
/// zero snaps to the period, and any other value stays. Nothing is carried
/// over the boundary.
pub open spec fn settled(raw: Scalar, period: Scalar) -> Scalar {
    if period.at_most(raw) {
        Scalar::zero()
    } else if raw.below(Scalar::zero()) {
        period
    } else {
        raw
    }
}

/// Whether `value` lies between zero and `period`, both included.
pub open spec fn within_cycle(value: Scalar, period: Scalar) -> bool {
    Scalar::zero().at_most(value) && value.at_most(period)
}

/// Clamps the measured frame time so that it is never negative and never
/// a NaN.
pub fn elapsed(dt: Scalar) -> (time: Scalar)
    ensures
        time == admitted(dt),
        !time.nan(),
        !time.below(Scalar::zero()),
{
    let zero = Scalar::zero();
    if zero.lt(&dt) {
        dt
    } else {
        zero
    }
}

/// Brings a raw cyclic value to rest within the cycle from zero to
/// `period`.
pub fn wrap(raw: Scalar, period: Scalar) -> (value: Scalar)
    ensures
        value == settled(raw, period),
        period.at_most(raw) ==> value == Scalar::zero(),
        raw.below(Scalar::zero()) && !period.at_most(raw) ==> value == period,
        !raw.nan() && Scalar::zero().at_most(period) ==> within_cycle(value, period),
        raw.nan() ==> value == raw,
{
    let zero = Scalar::zero();
    if period.le(&raw) {
        zero
    } else if raw.lt(&zero) {
        period
    } else {
        raw
    }
}

/// At the boundaries of one full turn: a raw value that has reached the
/// turn comes to rest at zero, and one that has fallen below zero comes to
/// rest at the full turn. Neither keeps what it went over by.
pub proof fn lemma_turn_snaps(raw: Scalar)
    ensures
        full_turn().at_most(raw) ==> settled(raw, full_turn()) == Scalar::zero(),
        raw.below(Scalar::zero()) ==> settled(raw, full_turn()) == full_turn(),
        !raw.nan() ==> within_cycle(settled(raw, full_turn()), full_turn()),
{
}

/// At the boundaries of the sweep: a raw value that has reached four turns
/// comes to rest at zero, and one that has fallen below zero comes to rest
/// at four turns.
pub proof fn lemma_sweep_snaps(raw: Scalar)
    ensures
        sweep_span().at_most(raw) ==> settled(raw, sweep_span()) == Scalar::zero(),
        raw.below(Scalar::zero()) ==> settled(raw, sweep_span()) == sweep_span(),
        !raw.nan() ==> within_cycle(settled(raw, sweep_span()), sweep_span()),
{
}

} // verus!
