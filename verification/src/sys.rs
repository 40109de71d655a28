//! The engine's two sources of nondeterminism, behind trusted wrappers:
//! the wall clock and the random generator. Every decision made from
//! their results lives in verified functions that take the value as an
//! argument.

use vstd::prelude::*;

verus! {

/// Relies on chrono::Utc::now and DateTime::timestamp_nanos_opt for the
/// wall-clock time in nanoseconds since the Unix epoch; a time outside
/// the i64 nanosecond range is reported as 0. chrono itself panics on a
/// system clock set before the epoch. Nothing is assumed beyond the i64
/// range of the chrono result.
#[verifier::external_body]
pub fn now_ns() -> (r: i128)
    ensures
        i64::MIN as i128 <= r <= i64::MAX as i128,
{
    chrono::Utc::now().timestamp_nanos_opt().unwrap_or(0) as i128
}

/// Relies on rand::random for a uniformly distributed u32. Nothing is
/// assumed of the result.
#[verifier::external_body]
pub fn random_u32() -> u32 {
    rand::random::<u32>()
}

} // verus!
