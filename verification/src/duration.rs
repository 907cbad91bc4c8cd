//! Durations written as literals, and the weighted average that smooths
//! sojourn times.
use core::time::Duration;
use vstd::prelude::*;

verus! {

/// The total number of nanoseconds of `d`, as `Duration::as_nanos` gives it.
pub uninterp spec fn duration_nanos(d: Duration) -> u128;

/// `Duration::as_nanos`: the total number of nanoseconds the duration holds.
pub assume_specification[ core::time::Duration::as_nanos ](d: &Duration) -> (r: u128)
    ensures
        r == duration_nanos(*d),
;

/// `Duration::from_secs`: a duration of `secs` whole seconds.
pub assume_specification[ core::time::Duration::from_secs ](secs: u64) -> (r: Duration)
    ensures
        duration_nanos(r) == secs * 1_000_000_000,
;

/// `Duration::from_millis`: a duration of `millis` milliseconds.
pub assume_specification[ core::time::Duration::from_millis ](millis: u64) -> (r: Duration)
    ensures
        duration_nanos(r) == millis * 1_000_000,
;

/// `Duration::from_micros`: a duration of `micros` microseconds.
pub assume_specification[ core::time::Duration::from_micros ](micros: u64) -> (r: Duration)
    ensures
        duration_nanos(r) == micros * 1_000,
;

/// `Duration::from_nanos`: a duration of `nanos` nanoseconds.
pub assume_specification[ core::time::Duration::from_nanos ](nanos: u64) -> (r: Duration)
    ensures
        duration_nanos(r) == nanos,
;

/// Durations written as a number and a unit, as in `5.ms()`.
pub trait LiteralDuration {
    fn s(self) -> Duration;

    fn ms(self) -> Duration;

    fn us(self) -> Duration;

    fn ns(self) -> Duration;
}

impl LiteralDuration for u64 {
    /// `self` seconds.
    fn s(self) -> (r: Duration)
        ensures
            duration_nanos(r) == self * 1_000_000_000,
    {
        Duration::from_secs(self)
    }

    /// `self` milliseconds.
    fn ms(self) -> (r: Duration)
        ensures
            duration_nanos(r) == self * 1_000_000,
    {
        Duration::from_millis(self)
    }

    /// `self` microseconds.
    fn us(self) -> (r: Duration)
        ensures
            duration_nanos(r) == self * 1_000,
    {
        Duration::from_micros(self)
    }

    /// `self` nanoseconds.
    fn ns(self) -> (r: Duration)
        ensures
            duration_nanos(r) == self,
    {
        Duration::from_nanos(self)
    }
}

/// The weighted average of two durations in whole nanoseconds, each first cut
/// to its low 64 bits: `a / weight * (weight - 1) + b / weight`, dividing
/// first so that nothing overflows.
pub open spec fn spec_weighted_average(a: nat, b: nat, weight: nat) -> nat {
    (a % 0x1_0000_0000_0000_0000) / weight * (weight - 1) as nat + (b % 0x1_0000_0000_0000_0000) / weight
}

/// Averages `a` and `b` with `a` counted `weight - 1` times and `b` once,
/// in whole nanoseconds.
pub fn weighted_average(a: Duration, b: Duration, weight: u64) -> (r: Duration)
    requires
        weight >= 1,
    ensures
        duration_nanos(r) == spec_weighted_average(
            duration_nanos(a) as nat,
            duration_nanos(b) as nat,
            weight as nat,
        ),
{
    let an: u128 = a.as_nanos();
    let bn: u128 = b.as_nanos();
    let mut x: u64 = an as u64;
    assert(x == an % 0x1_0000_0000_0000_0000) by (bit_vector)
        requires
            x == an as u64,
    ;
    let ghost x0 = x;
    x = x / weight;
    let ghost q = x;
    proof {
        assert(q <= (u64::MAX as int) / (weight as int)) by (nonlinear_arith)
            requires
                q == x0 / weight,
                x0 <= u64::MAX,
                weight >= 1,
        ;
        assert(q * (weight - 1) <= q * weight) by (nonlinear_arith)
            requires
                weight >= 1,
        ;
        assert(q * weight <= u64::MAX) by (nonlinear_arith)
            requires
                q == ((an as int) % 0x1_0000_0000_0000_0000) / (weight as int),
                weight >= 1,
                (an as int) % 0x1_0000_0000_0000_0000 <= u64::MAX,
        ;
    }
    x = x * (weight - 1);
    let mut y: u64 = bn as u64;
    assert(y == bn % 0x1_0000_0000_0000_0000) by (bit_vector)
        requires
            y == bn as u64,
    ;
    let ghost y0 = y;
    y = y / weight;
    proof {
        assert(y <= (u64::MAX as int) / (weight as int)) by (nonlinear_arith)
            requires
                y == y0 / weight,
                y0 <= u64::MAX,
                weight >= 1,
        ;
        assert(q * (weight - 1) + y <= u64::MAX) by (nonlinear_arith)
            requires
                q <= (u64::MAX as int) / (weight as int),
                y <= (u64::MAX as int) / (weight as int),
                weight >= 1,
        ;
    }
    Duration::from_nanos(x + y)
}

} // verus!

verus! {

/// Dividing before multiplying never overestimates: the average, taken
/// `weight` times, is at most `a` taken `weight - 1` times plus `b` (each
/// cut to its low 64 bits, as the average cuts them).
pub proof fn lemma_weighted_average_below(a: nat, b: nat, weight: nat)
    requires
        weight >= 1,
    ensures
        spec_weighted_average(a, b, weight) * weight <= (a % 0x1_0000_0000_0000_0000) * (weight - 1) as nat
            + b % 0x1_0000_0000_0000_0000,
{
    let x = a % 0x1_0000_0000_0000_0000;
    let y = b % 0x1_0000_0000_0000_0000;
    assert((x / weight) * weight <= x) by (nonlinear_arith)
        requires
            weight >= 1,
    ;
    assert((y / weight) * weight <= y) by (nonlinear_arith)
        requires
            weight >= 1,
    ;
    assert(((x / weight) * (weight - 1) as nat + y / weight) * weight == (x / weight) * weight * (weight - 1) as nat + (y / weight) * weight) by (nonlinear_arith);
    assert((x / weight) * weight * (weight - 1) as nat <= x * (weight - 1) as nat) by (nonlinear_arith)
        requires
            (x / weight) * weight <= x,
    ;
}

} // verus!
