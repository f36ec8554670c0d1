//! The lanes of the generator that the GPU engine seeds from a double-float.
//!
//! Only the integer half lives here: the lanes, their seeding from bit
//! patterns and the tausworthe step. Turning the double-float seed into bit
//! patterns, and the draws as doubles, are floating point.

use vstd::prelude::*;

use crate::rng::{seed_lanes, seeded_lanes, taus_iter, taus_next, taus_out, taus_step, unit_double_bits};

verus! {

/// Four 64-bit tausworthe lanes, as the shader keeps them.
#[derive(Clone, Copy, Debug)]
pub struct LuaRandomDf {
    pub state: [u64; 4],
}

impl LuaRandomDf {
    /// Seeds the lanes from the bit patterns of the four seed doubles.
    pub fn from_seed_bits(bits: [u64; 4]) -> (r: Self)
        ensures
            r.state@ == taus_iter(seeded_lanes(bits@), 10),
    {
        LuaRandomDf { state: seed_lanes(bits) }
    }

    /// Tausworthe step. Pure integer math, identical to the f64 generator's.
    pub fn rand_int(&mut self) -> (r: u64)
        ensures
            final(self).state@ == taus_next(old(self).state@),
            r == taus_out(old(self).state@),
    {
        taus_step(&mut self.state)
    }

    /// The bit pattern of the next double in `[1, 2)`.
    pub fn next_double_bits(&mut self) -> (r: u64)
        ensures
            final(self).state@ == taus_next(old(self).state@),
            r == unit_double_bits(taus_out(old(self).state@)),
    {
        let bits = self.rand_int();
        (bits & 0x000F_FFFF_FFFF_FFFF) | 0x3FF0_0000_0000_0000
    }
}

} // verus!
