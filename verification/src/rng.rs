//! The entropy source: a small xorshift-star pseudo-random generator.
//!
//! The generator state is owned by its `SimpleRng` value; each draw
//! advances the state by a verified xorshift step whose non-zero
//! invariant is proved, so the sequence can never collapse to zero.
//! Seeding mixes the wall clock with a per-process nonce, with a fixed
//! non-zero fallback against an all-zero seed.

use vstd::prelude::*;

use crate::clock;

verus! {

/// The non-zero state forced when a fresh seed comes out all zero; an
/// xorshift generator seeded with zero would emit zero forever.
pub const FALLBACK_SEED: u64 = 0xCAFEBABE;

/// The odd constant that scrambles each emitted value.
pub const OUTPUT_MULTIPLIER: u64 = 0x2545F4914F6CDD1D;

/// One xorshift advance of the generator state, with the shift triple
/// 12, 25, 27 that gives the full 2^64 - 1 period.
pub open spec fn xorshift_step(x: u64) -> u64 {
    let a = x ^ (x >> 12);
    let b = a ^ (a << 25);
    b ^ (b >> 27)
}

/// The value a draw emits from the state `x`: the advanced state,
/// scrambled by a wrapping multiplication.
pub open spec fn xorshift_output(x: u64) -> u64 {
    vstd::wrapping::u64_specs::wrapping_mul(xorshift_step(x), OUTPUT_MULTIPLIER)
}

/// A non-zero state steps to a non-zero state: the xorshift map is a
/// bijection fixing zero.
proof fn lemma_xorshift_nonzero(x: u64)
    by (bit_vector)
    requires
        x != 0,
    ensures
        xorshift_step(x) != 0,
{
}

/// A pseudo-random generator of the xorshift-star family. Not
/// cryptographically secure; it serves only to make identifier random
/// fields collide with negligible probability.
pub struct SimpleRng {
    state: u64,
}

impl SimpleRng {
    /// The generator state. The sole invariant is that it is never zero.
    pub closed spec fn raw_state(&self) -> u64 {
        self.state
    }

    /// A usable generator never holds the all-zero state.
    pub open spec fn wf(&self) -> bool {
        self.raw_state() != 0
    }

    /// A generator at an explicit seed, for deterministic sequences; an
    /// all-zero seed is replaced by the fixed fallback.
    pub fn from_seed(seed: u64) -> (r: SimpleRng)
        ensures
            r.wf(),
            r.raw_state() == if seed == 0 {
                FALLBACK_SEED
            } else {
                seed
            },
    {
        let state = if seed == 0 {
            FALLBACK_SEED
        } else {
            seed
        };
        SimpleRng { state }
    }

    /// A generator seeded from the wall clock mixed with the process
    /// nonce. The seed is arbitrary, but the generator is well formed.
    pub fn new() -> (r: SimpleRng)
        ensures
            r.wf(),
    {
        let nanos = clock::now_unix_nanos();
        let nonce = clock::process_nonce();
        SimpleRng::from_seed(nanos ^ nonce)
    }

    /// Draws the next value: advances the state by one xorshift step and
    /// emits the scrambled new state. The state stays non-zero.
    pub fn next_u64(&mut self) -> (r: u64)
        requires
            old(self).wf(),
        ensures
            final(self).wf(),
            final(self).raw_state() == xorshift_step(old(self).raw_state()),
            r == xorshift_output(old(self).raw_state()),
    {
        let mut x = self.state;
        x = x ^ (x >> 12);
        x = x ^ (x << 25);
        x = x ^ (x >> 27);
        self.state = x;
        proof {
            lemma_xorshift_nonzero(old(self).raw_state());
        }
        x.wrapping_mul(OUTPUT_MULTIPLIER)
    }
}

} // verus!
