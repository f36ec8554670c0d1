//! Diagnostic CPU workload: a tausworthe stream per seed, folded to 32 bits.
//!
//! Each lane of the GPU diagnostic seeds four tausworthe lanes from one
//! 32-bit seed, xors together `iter_count` outputs and reports the xor of
//! the accumulator's two halves.

use vstd::prelude::*;

use crate::rng::{taus_iter, taus_out, taus_step};

verus! {

/// `lo` in the low half, `hi` in the high half.
pub open spec fn pack(lo: u32, hi: u32) -> u64 {
    (lo as u64) | ((hi as u64) << 32)
}

/// The four lanes a diagnostic seed starts from.
pub open spec fn spec_seed_state(s: u32) -> Seq<u64> {
    seq![
        pack(s ^ 0x9E3779B9u32, s.wrapping_mul(0x85EBCA77u32).wrapping_add(0x123456u32)),
        pack(s.wrapping_mul(0xC2B2AE3Du32), s ^ 0x27D4EB2Fu32),
        pack(s ^ 0x165667B1u32, s.wrapping_mul(0x9E3779B9u32).wrapping_add(0xABCDu32)),
        pack(s.wrapping_mul(0x6C8E944Fu32), s ^ 0xCC9E2D51u32),
    ]
}

/// The xor of the first `n` outputs drawn from lanes `st`.
pub open spec fn taus_acc(st: Seq<u64>, n: nat) -> u64
    decreases n,
{
    if n == 0 {
        0
    } else {
        taus_acc(st, (n - 1) as nat) ^ taus_out(taus_iter(st, (n - 1) as nat))
    }
}

/// The two halves of `acc` xored together.
pub open spec fn fold_halves(acc: u64) -> u32 {
    (acc as u32) ^ ((acc >> 32) as u32)
}

/// The diagnostic output for one seed.
pub open spec fn diagnostic_value(seed: u32, iter_count: nat) -> u32 {
    fold_halves(taus_acc(spec_seed_state(seed), iter_count))
}

/// The four lanes for a diagnostic seed.
fn seed_state(seed: u32) -> (r: [u64; 4])
    ensures
        r@ == spec_seed_state(seed),
{
    let s = seed;
    let pack = |lo: u32, hi: u32| -> (r: u64)
        ensures
            r == pack(lo, hi),
        { (lo as u64) | ((hi as u64) << 32) };
    let r = [
        pack(s ^ 0x9E3779B9u32, s.wrapping_mul(0x85EBCA77u32).wrapping_add(0x123456u32)),
        pack(s.wrapping_mul(0xC2B2AE3Du32), s ^ 0x27D4EB2Fu32),
        pack(s ^ 0x165667B1u32, s.wrapping_mul(0x9E3779B9u32).wrapping_add(0xABCDu32)),
        pack(s.wrapping_mul(0x6C8E944Fu32), s ^ 0xCC9E2D51u32),
    ];
    assert(r@ =~= spec_seed_state(seed));
    r
}

/// Run the diagnostic workload on CPU; one output per seed
/// `seed_base .. seed_base + seed_count`.
pub fn run_cpu(seed_base: u32, iter_count: u32, seed_count: u32) -> (out: Vec<u32>)
    requires
        seed_base + seed_count <= u32::MAX + 1,
    ensures
        out.len() == seed_count,
        forall|i: int|
            0 <= i < seed_count ==> #[trigger] out[i] == diagnostic_value(
                (seed_base + i) as u32,
                iter_count as nat,
            ),
{
    let mut out: Vec<u32> = Vec::with_capacity(seed_count as usize);
    let mut i: u32 = 0;
    while i < seed_count
        invariant
            i <= seed_count,
            seed_base + seed_count <= u32::MAX + 1,
            out.len() == i,
            forall|j: int|
                0 <= j < i ==> #[trigger] out[j] == diagnostic_value(
                    (seed_base + j) as u32,
                    iter_count as nat,
                ),
        decreases seed_count - i,
    {
        let mut state = seed_state(seed_base + i);
        let ghost start = state@;
        let mut acc: u64 = 0;
        let mut n: u32 = 0;
        while n < iter_count
            invariant
                n <= iter_count,
                state@ == taus_iter(start, n as nat),
                acc == taus_acc(start, n as nat),
            decreases iter_count - n,
        {
            acc ^= taus_step(&mut state);
            n += 1;
        }
        out.push((acc as u32) ^ ((acc >> 32) as u32));
        i += 1;
    }
    out
}

} // verus!
