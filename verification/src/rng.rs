//! A multiply-with-carry pseudo-random byte source for the RND opcode.
//!
//! The state is a 32-bit lag value and a 32-bit carry; each draw computes
//! `t = x * MWC_MULT + c` and splits `t` into the new lag (low half) and the
//! new carry (high half). The produced byte is the low byte of the new lag.

use vstd::prelude::*;

verus! {

/// Multiplier of the generator.
pub const MWC_MULT: u64 = 3487286589;

/// Lag seeded on construction and on reset.
pub const RNG_SEED: u32 = 0x2545F491;

/// Generator state: lag `x` and carry `c`.
#[derive(Clone, Copy, PartialEq, Eq, Structural, Debug)]
pub struct Rng {
    pub x: u32,
    pub c: u32,
}

/// The state after one draw.
pub open spec fn rng_next(r: Rng) -> Rng {
    let t = (r.x as int) * (MWC_MULT as int) + (r.c as int);
    Rng { x: (t % 0x1_0000_0000) as u32, c: (t / 0x1_0000_0000) as u32 }
}

/// The byte produced by one draw: the low byte of the new lag.
pub open spec fn rng_byte(r: Rng) -> u8 {
    ((rng_next(r).x as int) % 256) as u8
}

impl Rng {
    pub fn new(seed: u32) -> (r: Rng)
        ensures
            r == (Rng { x: seed, c: 1 }),
    {
        Rng { x: seed, c: 1 }
    }

    /// Advance the generator and produce one byte.
    pub fn next_byte(&mut self) -> (b: u8)
        ensures
            *final(self) == rng_next(*old(self)),
            b == rng_byte(*old(self)),
    {
        let t: u64 = (self.x as u64) * MWC_MULT + (self.c as u64);
        proof {
            assert(t & 0xFFFF_FFFF == t % 0x1_0000_0000) by (bit_vector);
            assert(t >> 32 == t / 0x1_0000_0000) by (bit_vector);
            let lo = t & 0xFFFF_FFFF;
            assert(lo & 0xFF == lo % 256) by (bit_vector);
            vstd::arithmetic::div_mod::lemma_mod_bound(t as int, 0x1_0000_0000);
        }
        self.x = (t & 0xFFFF_FFFF) as u32;
        self.c = (t >> 32) as u32;
        (self.x & 0xFF) as u8
    }
}

} // verus!
