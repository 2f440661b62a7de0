//! An explicit random-stream handle.
//!
//! Every sampling operation draws from a stream value that is threaded
//! through the call: this keeps renders reproducible under a fixed seed and
//! lets parallel workers own independent streams.  The generator is a
//! xorshift with a multiplicative output scramble; fresh seeds come from the
//! process entropy source.

use vstd::prelude::*;

verus! {

use crate::fixed::ONE;

/// The state transition of the xorshift stream.
pub open spec fn rng_step(s: u64) -> u64 {
    let a = s ^ (s >> 12u64);
    let b = a ^ (a << 25u64);
    b ^ (b >> 27u64)
}

/// The value put out for a given state.
pub open spec fn rng_out(s: u64) -> u64 {
    rng_step(s).wrapping_mul(0x2545_F491_4F6C_DD1D)
}

/// Relies on rand::random: draws one machine word from the thread-local
/// entropy source.  Nothing can be promised of a random value.
pub assume_specification<T>[ rand::random::<T> ]() -> (r: T)
    where
        rand::distributions::Standard: rand::distributions::Distribution<T>,
;

/// A deterministic pseudo-random stream.
pub struct Rng {
    state: u64,
}

impl Rng {
    /// A stream starting from the given seed; a zero seed is replaced so the
    /// xorshift state never sticks at zero.
    pub fn new(seed: u64) -> (r: Rng)
        ensures
            r.view_state() == if seed == 0 {
                0x9E37_79B9_7F4A_7C15u64
            } else {
                seed
            },
    {
        if seed == 0 {
            Rng { state: 0x9E37_79B9_7F4A_7C15 }
        } else {
            Rng { state: seed }
        }
    }

    /// A stream seeded from the process entropy source.
    pub fn from_entropy() -> (r: Rng)
    {
        let seed: u64 = rand::random::<u64>();
        Rng::new(seed)
    }

    pub closed spec fn view_state(self) -> u64 {
        self.state
    }

    /// One step of the stream.
    pub fn next_u64(&mut self) -> (r: u64)
        ensures
            final(self).view_state() == rng_step(old(self).view_state()),
            r == rng_out(old(self).view_state()),
    {
        let s = self.state;
        let a = s ^ (s >> 12u64);
        let b = a ^ (a << 25u64);
        let c = b ^ (b >> 27u64);
        self.state = c;
        c.wrapping_mul(0x2545_F491_4F6C_DD1D)
    }

    /// A fixed-point sample in the half-open unit interval `[0, 1)`.
    pub fn next_unit(&mut self) -> (r: i64)
        ensures
            0 <= r < ONE,
            final(self).view_state() == rng_step(old(self).view_state()),
    {
        let v = self.next_u64();
        let top = v >> 48u64;
        proof {
            assert(v >> 48u64 < 65536) by (bit_vector);
        }
        top as i64
    }

    /// An unbiased coin: true with chance one half.
    pub fn next_bool(&mut self) -> (r: bool)
        ensures
            final(self).view_state() == rng_step(old(self).view_state()),
    {
        let v = self.next_u64();
        v & 1 == 1
    }
}

} // verus!
