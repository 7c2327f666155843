//! The two trusted reads this crate makes: the wall clock and a
//! per-process entropy value. Nothing is stated of the values returned;
//! every caller handles every possible outcome.

use vstd::prelude::*;

use std::collections::hash_map::RandomState;
use std::hash::BuildHasher;
use std::hash::Hasher;
use std::time::SystemTime;
use std::time::UNIX_EPOCH;

verus! {

/// Relies on std's `SystemTime::now` and `Duration::as_micros`: the wall
/// clock as microseconds since the Unix epoch, or nothing when the clock
/// stands before the epoch. The value depends on the clock, so nothing is
/// stated of it.
#[verifier::external_body]
pub(crate) fn now_unix_micros() -> Option<u64> {
    match SystemTime::now().duration_since(UNIX_EPOCH) {
        Ok(d) => Some(d.as_micros() as u64),
        Err(_) => None,
    }
}

/// Relies on std's `SystemTime::now` and `Duration::as_nanos`: the wall
/// clock in nanoseconds since the Unix epoch, truncated to 64 bits, or
/// zero before the epoch. Used only to vary generator seeds between
/// calls; nothing is stated of the value.
#[verifier::external_body]
pub(crate) fn now_unix_nanos() -> u64 {
    match SystemTime::now().duration_since(UNIX_EPOCH) {
        Ok(d) => d.as_nanos() as u64,
        Err(_) => 0,
    }
}

/// Relies on std's `RandomState`, whose hasher keys are randomly seeded
/// per process: a process-specific nonce, mixed into generator seeds so
/// that two processes started in the same nanosecond still diverge.
/// Nothing is stated of the value.
#[verifier::external_body]
pub(crate) fn process_nonce() -> u64 {
    RandomState::new().build_hasher().finish()
}

} // verus!
