//! Positive normal binary64 numbers, as the filter compiler's estimates are.
//!
//! A double is held as a pair `(significand, exponent)`: its value is
//! `significand * 2^exponent` with the significand in `[2^52, 2^53)`. For
//! such pairs value order is the lexicographic order of (exponent,
//! significand). Multiplication rounds the exact product to 53 significant
//! bits, to nearest with ties to even, as binary64 does.

use vstd::arithmetic::div_mod::*;
use vstd::arithmetic::mul::*;
use vstd::prelude::*;

verus! {

/// `2^e`.
pub open spec fn p2(e: nat) -> nat
    decreases e,
{
    if e == 0 {
        1
    } else {
        2 * p2((e - 1) as nat)
    }
}

/// The number of binary digits of `x` (0 for 0).
pub open spec fn bit_len(x: nat) -> nat
    decreases x,
{
    if x == 0 {
        0
    } else {
        1 + bit_len(x / 2)
    }
}

/// `x > 0` rounded to 53 significant bits, to nearest with ties to even:
/// a significand in `[2^52, 2^53)` and the power of two it is scaled by.
pub open spec fn round_double(x: nat) -> (nat, int) {
    let n = bit_len(x);
    if n <= 53 {
        (x * p2((53 - n) as nat), n - 53)
    } else {
        let k = (n - 53) as nat;
        let q = x / p2(k);
        let r = x % p2(k);
        let h = p2((k - 1) as nat);
        if !(r > h || (r == h && q % 2 == 1)) {
            (q, k as int)
        } else if q + 1 == p2(53) {
            (p2(52), k + 1int)
        } else {
            (q + 1, k as int)
        }
    }
}

/// Whether `(s, e)` is a double in normal form.
pub open spec fn is_double(d: (nat, int)) -> bool {
    p2(52) <= d.0 < p2(53)
}

/// The binary64 product of two doubles.
pub open spec fn double_mul(a: (nat, int), b: (nat, int)) -> (nat, int) {
    let r = round_double(a.0 * b.0);
    (r.0, a.1 + b.1 + r.1)
}

/// Whether double `a` is below double `b`.
pub open spec fn double_lt(a: (nat, int), b: (nat, int)) -> bool {
    a.1 < b.1 || (a.1 == b.1 && a.0 < b.0)
}

/// The smaller of two doubles, `a` when they are equal (`f64::min`).
pub open spec fn double_min(a: (nat, int), b: (nat, int)) -> (nat, int) {
    if double_lt(b, a) {
        b
    } else {
        a
    }
}

/// The double 1.0.
pub open spec fn double_one() -> (nat, int) {
    (4503599627370496, -52)
}

pub proof fn lemma_p2_values()
    ensures
        p2(52) == 4503599627370496,
        p2(53) == 9007199254740992,
        p2(64) == 18446744073709551616,
{
    reveal_with_fuel(p2, 54);
    assert(p2(11) == 2048) by {
        reveal_with_fuel(p2, 12);
    }
    lemma_p2_adds(53, 11);
}

pub proof fn lemma_p2_adds(a: nat, b: nat)
    ensures
        p2(a + b) == p2(a) * p2(b),
    decreases a,
{
    if a == 0 {
        assert(p2(a) == 1);
        assert(p2(a + b) == p2(b));
    } else {
        lemma_p2_adds((a - 1) as nat, b);
        assert((a + b - 1) as nat == (a - 1 + b) as nat);
        assert(p2(a + b) == 2 * p2((a - 1 + b) as nat));
        assert(p2(a) == 2 * p2((a - 1) as nat));
        lemma_mul_is_associative(2, p2((a - 1) as nat) as int, p2(b) as int);
    }
}

pub proof fn lemma_p2_positive(a: nat)
    ensures
        p2(a) >= 1,
    decreases a,
{
    if a > 0 {
        lemma_p2_positive((a - 1) as nat);
    }
}

pub proof fn lemma_p2_strictly_increases(a: nat, b: nat)
    requires
        a < b,
    ensures
        p2(a) < p2(b),
    decreases b,
{
    lemma_p2_positive((b - 1) as nat);
    if a < b - 1 {
        lemma_p2_strictly_increases(a, (b - 1) as nat);
    }
}

/// `x > 0` lies in `[2^(n-1), 2^n)` for its bit length `n`.
pub proof fn lemma_bit_len_bounds(x: nat)
    requires
        x > 0,
    ensures
        bit_len(x) >= 1,
        p2((bit_len(x) - 1) as nat) <= x < p2(bit_len(x)),
    decreases x,
{
    let h = x / 2;
    assert(x == 2 * h + x % 2);
    if h == 0 {
        assert(x == 1);
        assert(bit_len(0) == 0);
        assert(p2(1) == 2);
    } else {
        lemma_bit_len_bounds(h);
        assert(bit_len(x) == 1 + bit_len(h));
        assert(p2(bit_len(x)) == 2 * p2(bit_len(h)));
        assert(p2((bit_len(x) - 1) as nat) == 2 * p2((bit_len(h) - 1) as nat));
    }
}

/// The bit length of `x > 0` is `n` exactly when `x` lies in `[2^(n-1), 2^n)`.
pub proof fn lemma_bit_len_range(x: nat, lo: nat, hi: nat)
    requires
        0 < x,
        p2(lo) <= x < p2(hi),
    ensures
        lo < bit_len(x) <= hi,
{
    lemma_bit_len_bounds(x);
    let n = bit_len(x);
    if n > hi {
        if (n - 1) as nat > hi {
            lemma_p2_strictly_increases(hi, (n - 1) as nat);
        }
    }
    if n <= lo {
        if n < lo {
            lemma_p2_strictly_increases(n, lo);
        }
    }
}

/// Rounding yields a double in normal form whose exponent is the bit length
/// less 53, or less 52 when rounding carried into a new digit.
pub proof fn lemma_round_double(x: nat)
    requires
        x > 0,
    ensures
        is_double(round_double(x)),
        bit_len(x) - 53 <= round_double(x).1 <= bit_len(x) - 52,
{
    lemma_bit_len_bounds(x);
    lemma_p2_values();
    let n = bit_len(x);
    if n <= 53 {
        let m = (53 - n) as nat;
        lemma_p2_adds(m, n);
        lemma_p2_adds(m, (n - 1) as nat);
        assert(p2(53) == p2(m) * p2(n));
        assert(p2(52) == p2(m) * p2((n - 1) as nat));
        lemma_p2_positive(m);
        lemma_mul_inequality(p2((n - 1) as nat) as int, x as int, p2(m) as int);
        lemma_mul_strict_inequality(x as int, p2(n) as int, p2(m) as int);
        lemma_mul_is_commutative(x as int, p2(m) as int);
        lemma_mul_is_commutative(p2((n - 1) as nat) as int, p2(m) as int);
        lemma_mul_is_commutative(p2(n) as int, p2(m) as int);
    } else {
        let k = (n - 53) as nat;
        lemma_p2_positive(k);
        lemma_p2_adds(53, k);
        lemma_p2_adds(52, k);
        assert((n - 1) as nat == 52 + k);
        lemma_multiply_divide_lt(x as int, p2(k) as int, p2(53) as int);
        lemma_mul_is_commutative(p2(k) as int, p2(53) as int);
        lemma_div_is_ordered((p2(52) * p2(k)) as int, x as int, p2(k) as int);
        lemma_div_by_multiple(p2(52) as int, p2(k) as int);
    }
}

/// The product of two doubles rounds to a double whose exponent is the sum
/// of theirs plus 52 to 54.
pub proof fn lemma_product_range(m: (nat, int), l: (nat, int))
    requires
        is_double(m),
        is_double(l),
    ensures
        is_double(double_mul(m, l)),
        m.1 + l.1 + 52 <= double_mul(m, l).1 <= m.1 + l.1 + 54,
        p2(104) <= m.0 * l.0 < p2(106),
{
    lemma_p2_values();
    lemma_p2_adds(52, 52);
    lemma_p2_adds(53, 53);
    lemma_mul_inequality(p2(52) as int, m.0 as int, p2(52) as int);
    lemma_mul_inequality(p2(52) as int, l.0 as int, m.0 as int);
    lemma_mul_strict_inequality(m.0 as int, p2(53) as int, l.0 as int);
    lemma_mul_strict_inequality(l.0 as int, p2(53) as int, p2(53) as int);
    lemma_mul_is_commutative(m.0 as int, l.0 as int);
    lemma_mul_is_commutative(p2(53) as int, l.0 as int);
    lemma_round_double(m.0 * l.0);
    lemma_bit_len_range(m.0 * l.0, 104, 106);
}

/// The powers of two from 2^53 to 2^64.
pub proof fn lemma_p2_to_64()
    ensures
        p2(56) == 72057594037927936,
        p2(57) == 144115188075855872,
        p2(58) == 288230376151711744,
        p2(59) == 576460752303423488,
        p2(60) == 1152921504606846976,
        p2(63) == 9223372036854775808,
        p2(64) == 18446744073709551616,
{
    lemma_p2_values();
    assert(p2(54) == 2 * p2(53));
    assert(p2(55) == 2 * p2(54));
    assert(p2(56) == 2 * p2(55));
    assert(p2(57) == 2 * p2(56));
    assert(p2(58) == 2 * p2(57));
    assert(p2(59) == 2 * p2(58));
    assert(p2(60) == 2 * p2(59));
    assert(p2(61) == 2 * p2(60));
    assert(p2(62) == 2 * p2(61));
    assert(p2(63) == 2 * p2(62));
}

/// Rounds `x` to a double, returning significand and exponent.
pub fn round_to_double(x: u128) -> (r: (u64, i64))
    requires
        0 < x,
        x < p2(106),
    ensures
        (r.0 as nat, r.1 as int) == round_double(x as nat),
        is_double((r.0 as nat, r.1 as int)),
{
    proof {
        lemma_round_double(x as nat);
        lemma_bit_len_bounds(x as nat);
        if bit_len(x as nat) > 106 {
            lemma_p2_strictly_increases(106, (bit_len(x as nat) - 1) as nat);
        }
        lemma_p2_values();
    }
    let mut t: u128 = x;
    let mut n: u32 = 0;
    while t > 0
        invariant
            bit_len(x as nat) == n + bit_len(t as nat),
            bit_len(x as nat) <= 106,
        decreases t,
    {
        t = t / 2;
        n = n + 1;
    }
    if n <= 53 {
        let mut p: u128 = 1;
        let mut i: u32 = 0;
        while i < 53 - n
            invariant
                i <= 53 - n,
                n <= 53,
                p == p2(i as nat),
                p2(53) == 9007199254740992,
            decreases 53 - n - i,
        {
            proof {
                lemma_p2_strictly_increases(i as nat, 53);
            }
            p = p * 2;
            i = i + 1;
        }
        let s = x * p;
        (s as u64, n as i64 - 53)
    } else {
        let k = n - 53;
        let mut p: u128 = 1;
        let mut i: u32 = 0;
        while i < k
            invariant
                i <= k <= 53,
                p == p2(i as nat),
                p > 0,
                p2(53) == 9007199254740992,
            decreases k - i,
        {
            proof {
                lemma_p2_positive((i + 1) as nat);
                lemma_p2_strictly_increases(i as nat, 53);
                if i + 1 < 53 {
                    lemma_p2_strictly_increases((i + 1) as nat, 53);
                }
            }
            p = p * 2;
            i = i + 1;
        }
        let q = x / p;
        let r = x % p;
        proof {
            assert(p2(k as nat) == 2 * p2((k - 1) as nat));
        }
        let h = p / 2;
        if !(r > h || (r == h && q % 2 == 1)) {
            (q as u64, k as i64)
        } else if q + 1 == 9007199254740992 {
            (4503599627370496, k as i64 + 1)
        } else {
            ((q + 1) as u64, k as i64)
        }
    }
}

} // verus!
