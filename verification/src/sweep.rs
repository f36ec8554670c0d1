//! Seeds for the regression sweep: a scrambled, repeatable 8-symbol seed
//! for each sweep index.

use vstd::prelude::*;

use crate::seed::{seed_char, SEED_CHARS};
use crate::text::push_char;

verus! {

/// The scrambler's state after `k` symbols have been drawn for index `i`:
/// divide by 35, and restart from a second mix of `i` when it reaches zero.
pub open spec fn sweep_state(i: u64, k: nat) -> u64
    decreases k,
{
    if k == 0 {
        i.wrapping_mul(0x9E37_79B9_7F4A_7C15u64).wrapping_add(1)
    } else {
        let x = sweep_state(i, (k - 1) as nat) / 35;
        if x == 0 {
            i.wrapping_mul(0xBF58_476D_1CE4_E5B9u64).wrapping_add(0xDEAD)
        } else {
            x
        }
    }
}

/// The 8 symbols of sweep seed `i`: symbol `k` is the state after `k`
/// draws, modulo 35.
pub open spec fn sweep_seed(i: u64) -> Seq<char> {
    Seq::new(8, |k: int| seed_char((sweep_state(i, k as nat) % 35) as int) as char)
}

/// Map sweep index `i` to an 8-symbol seed over the engine's alphabet.
pub fn synth_seed(i: u64) -> (s: String)
    ensures
        s@ == sweep_seed(i),
{
    let mut x = i.wrapping_mul(0x9E37_79B9_7F4A_7C15).wrapping_add(1);
    let mut s = String::new();
    let mut k: usize = 0;
    while k < 8
        invariant
            k <= 8,
            x == sweep_state(i, k as nat),
            s@ =~= sweep_seed(i).subrange(0, k as int),
        decreases 8 - k,
    {
        let idx = (x % 35) as usize;
        push_char(&mut s, SEED_CHARS[idx] as char);
        x /= 35;
        if x == 0 {
            x = i.wrapping_mul(0xBF58_476D_1CE4_E5B9).wrapping_add(0xDEAD);
        }
        k += 1;
    }
    s
}

} // verus!
