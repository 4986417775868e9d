//! Spans of time, and points in time as the span since a fixed start.
//!
//! Verus does not look inside [`core::time::Duration`]: [`duration_nanos`]
//! names the nanoseconds that a duration lasts, and the items below say what
//! the functions of the standard library do to them.

use core::time::Duration;
use vstd::prelude::*;

verus! {

/// The number of nanoseconds that a duration lasts.
pub uninterp spec fn duration_nanos(d: core::time::Duration) -> nat;

/// `Duration::from_secs`: a duration of whole seconds.
pub assume_specification[ core::time::Duration::from_secs ](secs: u64) -> (r: core::time::Duration)
    ensures
        duration_nanos(r) == secs * 1_000_000_000,
;

/// `Duration::as_nanos`: the number of nanoseconds that the duration lasts.
pub assume_specification[ core::time::Duration::as_nanos ](d: &core::time::Duration) -> (r: u128)
    ensures
        r == duration_nanos(*d),
;

/// `Duration::saturating_sub`: the difference, or nothing where it would be
/// negative.
pub assume_specification[ core::time::Duration::saturating_sub ](
    d: core::time::Duration,
    rhs: core::time::Duration,
) -> (r: core::time::Duration)
    ensures
        duration_nanos(r) == (if duration_nanos(d) >= duration_nanos(rhs) {
            duration_nanos(d) - duration_nanos(rhs)
        } else {
            0
        }),
;

/// Whether `a` is shorter than `b`.
pub fn shorter(a: Duration, b: Duration) -> (r: bool)
    ensures
        r == (duration_nanos(a) < duration_nanos(b)),
{
    a.as_nanos() < b.as_nanos()
}

/// The time from `then` to `now`; nothing where `then` is the later.
pub open spec fn elapsed_nanos(now: Duration, then: Duration) -> int {
    if duration_nanos(now) >= duration_nanos(then) {
        duration_nanos(now) - duration_nanos(then)
    } else {
        0
    }
}

/// Time that has passed brings the earlier point to the later one.
pub proof fn elapsed_time_adds_up(now: Duration, then: Duration)
    ensures
        duration_nanos(then) <= duration_nanos(now) ==> duration_nanos(then) + elapsed_nanos(
            now,
            then,
        ) == duration_nanos(now),
        duration_nanos(then) > duration_nanos(now) ==> elapsed_nanos(now, then) == 0,
{
}

} // verus!
