//! Seed string encoding over the 35-symbol seed alphabet.
//!
//! A seed is 1 to 8 symbols of the alphabet `1..9A..Z`; it is held as the
//! alphabet indices of its symbols. Seeds of one length are ranked in
//! base 35, most significant symbol first.

use vstd::arithmetic::div_mod::*;
use vstd::arithmetic::mul::*;
use vstd::prelude::*;
use vstd::string::StringSliceAdditionalSpecFns;

use crate::heapless;
use crate::text::bytes_as_chars;

verus! {

/// The seed alphabet, in rank order: `123456789ABCDEFGHIJKLMNOPQRSTUVWXYZ`.
pub const SEED_CHARS: [u8; 35] = [
    49, 50, 51, 52, 53, 54, 55, 56, 57, 65, 66, 67, 68, 69, 70, 71, 72, 73, 74, 75, 76, 77, 78, 79,
    80, 81, 82, 83, 84, 85, 86, 87, 88, 89, 90,
];

/// Number of symbols in the seed alphabet.
pub const NUM_CHARS: usize = 35;

/// The byte that encodes alphabet index `i` (`'1'..'9'`, then `'A'..'Z'`).
pub open spec fn seed_char(i: int) -> u8 {
    if i < 9 {
        (49 + i) as u8
    } else {
        (65 + (i - 9)) as u8
    }
}

/// The alphabet index of byte `b`, if `b` is a seed symbol.
pub open spec fn char_index(b: u8) -> Option<u8> {
    if 49 <= b <= 57 {
        Some((b - 49) as u8)
    } else if 65 <= b <= 90 {
        Some((b - 65 + 9) as u8)
    } else {
        None
    }
}

/// A digit sequence that some seed holds: 1 to 8 alphabet indices.
pub open spec fn valid_digits(d: Seq<u8>) -> bool {
    &&& 1 <= d.len() <= 8
    &&& forall|i: int| 0 <= i < d.len() ==> #[trigger] d[i] < 35
}

/// `35^n`.
pub open spec fn pow35(n: nat) -> nat
    decreases n,
{
    if n == 0 {
        1
    } else {
        35 * pow35((n - 1) as nat)
    }
}

/// The base-35 value of a digit sequence, most significant digit first.
pub open spec fn rank_of(d: Seq<u8>) -> nat
    decreases d.len(),
{
    if d.len() == 0 {
        0
    } else {
        rank_of(d.drop_last()) * 35 + d.last() as nat
    }
}

/// The `len` base-35 digits of `rank`, most significant first (higher
/// digits of `rank` are dropped).
pub open spec fn digits_of(rank: nat, len: nat) -> Seq<u8> {
    Seq::new(len, |k: int| ((rank / pow35((len - 1 - k) as nat)) % 35) as u8)
}

/// Whether every digit is the last symbol of the alphabet.
pub open spec fn all_max(d: Seq<u8>) -> bool {
    forall|i: int| 0 <= i < d.len() ==> #[trigger] d[i] == 34
}

/// The seed after `d` in scan order: the next rank of the same length, or,
/// after the last one, the first seed one symbol longer.
pub open spec fn next_digits(d: Seq<u8>) -> Seq<u8> {
    if all_max(d) {
        Seq::new(d.len() + 1, |k: int| 0u8)
    } else {
        digits_of(rank_of(d) + 1, d.len())
    }
}

/// What `Seed::parse` gives for the bytes of a string: the digits when the
/// string is 1 to 8 alphabet symbols, else nothing.
pub open spec fn spec_parse(bytes: Seq<u8>) -> Option<Seq<u8>> {
    if 1 <= bytes.len() <= 8 && forall|i: int|
        0 <= i < bytes.len() ==> (#[trigger] char_index(bytes[i])) is Some {
        Some(Seq::new(bytes.len(), |i: int| char_index(bytes[i])->0))
    } else {
        None
    }
}

/// The bytes that spell a digit sequence.
pub open spec fn render_digits(d: Seq<u8>) -> Seq<u8> {
    Seq::new(d.len(), |i: int| seed_char(d[i] as int))
}

/// A Balatro seed represented as up to 8 alphabet indices (0..35).
#[derive(Clone, Copy, Debug, PartialEq, Eq)]
pub struct Seed {
    data: [u8; 8],
    len: u8,
}

impl View for Seed {
    type V = Seq<u8>;

    /// The alphabet indices of the seed's symbols. (Every seed a program
    /// holds is well formed; the fallback only keeps the view valid for
    /// values that exist in specifications alone.)
    closed spec fn view(&self) -> Seq<u8> {
        if self.well_formed() {
            self.data@.subrange(0, self.len as int)
        } else {
            seq![0u8]
        }
    }
}

/// Every seed holds 1 to 8 alphabet indices.
pub proof fn lemma_seed_valid(s: Seed)
    ensures
        valid_digits(s@),
{
    if s.well_formed() {
        assert forall|i: int| 0 <= i < s@.len() implies #[trigger] s@[i] < 35 by {
            assert(s@[i] == s.data[i]);
        }
    }
}

pub proof fn lemma_pow35_positive(n: nat)
    ensures
        pow35(n) >= 1,
    decreases n,
{
    if n > 0 {
        lemma_pow35_positive((n - 1) as nat);
    }
}

proof fn lemma_pow35_monotone(a: nat, b: nat)
    requires
        a <= b,
    ensures
        pow35(a) <= pow35(b),
    decreases b,
{
    if a < b {
        lemma_pow35_monotone(a, (b - 1) as nat);
        lemma_pow35_positive((b - 1) as nat);
    }
}

proof fn lemma_pow35_8()
    ensures
        pow35(8) == 2251875390625,
{
    reveal_with_fuel(pow35, 9);
}

/// The value of `d` is below `35^|d|`.
proof fn lemma_rank_bound(d: Seq<u8>)
    requires
        forall|i: int| 0 <= i < d.len() ==> #[trigger] d[i] < 35,
    ensures
        rank_of(d) < pow35(d.len()),
    decreases d.len(),
{
    if d.len() > 0 {
        let p = d.drop_last();
        assert forall|i: int| 0 <= i < p.len() implies #[trigger] p[i] < 35 by {
            assert(p[i] == d[i]);
        }
        lemma_rank_bound(p);
        assert(d.last() < 35);
        assert(rank_of(d) == rank_of(p) * 35 + d.last() as nat);
        assert(rank_of(p) + 1 <= pow35(p.len()));
        lemma_mul_inequality((rank_of(p) + 1) as int, pow35(p.len()) as int, 35);
        assert(pow35(d.len()) == 35 * pow35(p.len()));
    }
}

/// Prepending a digit adds it at the highest weight.
proof fn lemma_rank_prepend(x: u8, s: Seq<u8>)
    ensures
        rank_of(seq![x] + s) == x as nat * pow35(s.len()) + rank_of(s),
    decreases s.len(),
{
    let t = seq![x] + s;
    assert(pow35(0) == 1);
    assert(rank_of(Seq::<u8>::empty()) == 0);
    if s.len() == 0 {
        assert(t.drop_last() =~= Seq::<u8>::empty());
        assert(rank_of(t) == x as nat);
    } else {
        assert(t.drop_last() =~= seq![x] + s.drop_last());
        lemma_rank_prepend(x, s.drop_last());
        assert(t.last() == s.last());
        let p = pow35(s.drop_last().len());
        assert(rank_of(t) == (x as nat * p + rank_of(s.drop_last())) * 35 + s.last() as nat);
        lemma_mul_is_distributive_add_other_way(35, (x as nat * p) as int, rank_of(s.drop_last()) as int);
        lemma_mul_is_associative(x as int, p as int, 35);
        assert(pow35(s.len()) == 35 * p);
    }
}

/// Digit `k` of `digits_of(rank, len)` drops the last digit when one divides by 35.
proof fn lemma_digits_drop_last(rank: nat, len: nat)
    requires
        len > 0,
    ensures
        digits_of(rank, len).drop_last() =~= digits_of(rank / 35, (len - 1) as nat),
        digits_of(rank, len).last() == rank % 35,
{
    assert(pow35(0) == 1);
    assert(rank / 1 == rank);
    let a = digits_of(rank, len).drop_last();
    let b = digits_of(rank / 35, (len - 1) as nat);
    assert forall|k: int| 0 <= k < a.len() implies a[k] == b[k] by {
        let e = (len - 2 - k) as nat;
        lemma_pow35_positive(e);
        assert(pow35((len - 1 - k) as nat) == 35 * pow35(e));
        lemma_div_denominator(rank as int, 35, pow35(e) as int);
    }
    assert(pow35(0) == 1);
}

/// Rendering `rank` in `len` digits and reading it back gives `rank mod 35^len`.
pub proof fn lemma_rank_of_digits(rank: nat, len: nat)
    ensures
        rank_of(digits_of(rank, len)) == rank % pow35(len),
    decreases len,
{
    if len == 0 {
        assert(digits_of(rank, 0) =~= Seq::<u8>::empty());
    } else {
        lemma_digits_drop_last(rank, len);
        lemma_rank_of_digits(rank / 35, (len - 1) as nat);
        let p = pow35((len - 1) as nat);
        lemma_pow35_positive((len - 1) as nat);
        lemma_mod_breakdown(rank as int, 35, p as int);
        lemma_mul_is_commutative(35, (rank / 35 % p) as int);
    }
}

proof fn lemma_char_index_of_seed_char(i: int)
    requires
        0 <= i < 35,
    ensures
        char_index(seed_char(i)) == Some(i as u8),
{
}

impl Seed {
    /// The length is 1 to 8, the digits are alphabet indices, and the
    /// unused positions hold zero. Every seed a program holds is so.
    pub closed spec fn well_formed(self) -> bool {
        &&& 1 <= self.len <= 8
        &&& forall|i: int| 0 <= i < self.len ==> #[trigger] self.data[i] < 35
        &&& forall|i: int| self.len <= i < 8 ==> #[trigger] self.data[i] == 0
    }

    #[verifier::type_invariant]
    spec fn inv(self) -> bool {
        self.well_formed()
    }

    /// Construct from a string. Returns `None` if any char is invalid.
    pub fn parse(s: &str) -> (r: Option<Self>)
        ensures
            match r {
                Some(seed) => spec_parse(s.spec_bytes()) == Some(seed@) && valid_digits(seed@)
                && seed.well_formed(),
                None => spec_parse(s.spec_bytes()) is None,
            },
    {
        let bytes = s.as_bytes();
        if bytes.len() == 0 || bytes.len() > 8 {
            return None;
        }
        let n = bytes.len();
        let mut data = [0u8; 8];
        let mut i: usize = 0;
        while i < n
            invariant
                n == bytes@.len(),
                1 <= n <= 8,
                i <= n,
                bytes@ == s.spec_bytes(),
                forall|k: int| 0 <= k < i ==> (#[trigger] char_index(bytes@[k])) is Some,
                forall|k: int| 0 <= k < i ==> #[trigger] data[k] == char_index(bytes@[k])->0,
                forall|k: int| i <= k < 8 ==> #[trigger] data[k] == 0,
            decreases n - i,
        {
            let b = bytes[i];
            match position_of(b) {
                Some(idx) => {
                    data[i] = idx;
                },
                None => {
                    return None;
                },
            }
            i += 1;
        }
        let seed = Seed { data, len: n as u8 };
        assert(seed@ =~= Seq::new(bytes@.len(), |k: int| char_index(bytes@[k])->0));
        Some(seed)
    }

    /// Construct from an integer rank (0-indexed) in the base-35 ordering of
    /// seeds of length `len`. Digits above `35^len` are dropped.
    pub fn from_rank(rank: u64, len: u8) -> (r: Self)
        requires
            1 <= len <= 8,
        ensures
            r@ == digits_of(rank as nat, len as nat),
            valid_digits(r@),
            r.well_formed(),
    {
        let mut data = [0u8; 8];
        let mut rest = rank;
        let mut i: usize = len as usize;
        assert(pow35(0) == 1);
        assert(rank as nat / 1 == rank);
        while i > 0
            invariant
                i <= len <= 8,
                1 <= len,
                forall|k: int|
                    i <= k < len ==> #[trigger] data[k] == digits_of(rank as nat, len as nat)[k],
                forall|k: int| 0 <= k < i ==> #[trigger] data[k] == 0,
                forall|k: int| len <= k < 8 ==> #[trigger] data[k] == 0,
                rest == rank as nat / pow35((len - i) as nat),
            decreases i,
        {
            let k = i - 1;
            data[k] = (rest % (NUM_CHARS as u64)) as u8;
            proof {
                let e = (len - i) as nat;
                assert(len - 1 - k == e);
                lemma_pow35_positive(e);
                lemma_div_denominator(rank as int, pow35(e) as int, 35);
                lemma_mul_is_commutative(pow35(e) as int, 35);
                assert(pow35((len - k) as nat) == 35 * pow35(e));
            }
            rest = rest / (NUM_CHARS as u64);
            i = k;
        }
        let seed = Seed { data, len };
        assert(seed@ =~= digits_of(rank as nat, len as nat));
        seed
    }

    /// Reverse of `from_rank`: the base-35 value of the seed's digits.
    pub fn rank(&self) -> (r: u64)
        ensures
            r == rank_of(self@),
    {
        proof {
            use_type_invariant(self);
        }
        let n = self.len as usize;
        let ghost d = self@;
        let mut acc: u64 = 0;
        let mut mult: u64 = 1;
        let mut i: usize = n;
        proof {
            lemma_pow35_8();
        }
        while i > 0
            invariant
                i <= n <= 8,
                d == self@,
                d.len() == n,
                forall|k: int| 0 <= k < n ==> #[trigger] d[k] == self.data[k],
                forall|k: int| 0 <= k < n ==> #[trigger] d[k] < 35,
                acc == rank_of(d.subrange(i as int, n as int)),
                mult == pow35((n - i) as nat),
                pow35(8) == 2251875390625,
            decreases i,
        {
            let k = i - 1;
            proof {
                let tail = d.subrange(i as int, n as int);
                assert(d.subrange(k as int, n as int) =~= seq![d[k as int]] + tail);
                lemma_rank_prepend(d[k as int], tail);
                assert forall|j: int| 0 <= j < tail.len() implies #[trigger] tail[j] < 35 by {
                    assert(tail[j] == d[i + j]);
                }
                lemma_rank_bound(tail);
                lemma_pow35_monotone((n - i) as nat, 7);
                lemma_pow35_monotone((n - k) as nat, 8);
                assert(pow35((n - k) as nat) == 35 * pow35((n - i) as nat));
                lemma_mul_inequality(d[k as int] as int, 34, mult as int);
            }
            acc = acc + self.data[k] as u64 * mult;
            mult = mult * 35;
            i = k;
        }
        assert(d.subrange(0, n as int) =~= d);
        acc
    }

    /// Renders the seed as its symbols.
    pub fn as_str(&self) -> (r: heapless::String<8>)
        ensures
            r@ == render_digits(self@),
    {
        proof {
            use_type_invariant(self);
        }
        let mut s = heapless::String::<8>::new();
        let n = self.len as usize;
        let mut i: usize = 0;
        while i < n
            invariant
                i <= n <= 8,
                n == self.len,
                n == self@.len(),
                self.well_formed(),
                forall|k: int| 0 <= k < n ==> #[trigger] self.data[k] < 35,
                s@ =~= render_digits(self@.subrange(0, i as int)),
            decreases n - i,
        {
            let c = SEED_CHARS[self.data[i] as usize];
            let _ = s.push(c as char);
            proof {
                assert(self@[i as int] == self.data@[i as int]);
                assert((c as char) as u8 == c);
                assert(self@.subrange(0, i + 1) =~= self@.subrange(0, i as int).push(self@[i as int]));
            }
            i += 1;
        }
        assert(self@.subrange(0, n as int) =~= self@);
        s
    }

    /// Writes the seed's symbols to the front of `buf`; returns their number.
    pub fn write_to(&self, buf: &mut [u8; 8]) -> (n: usize)
        ensures
            n == self@.len(),
            1 <= n <= 8,
            final(buf)@.subrange(0, n as int) == render_digits(self@),
            final(buf)@.subrange(n as int, 8) == old(buf)@.subrange(n as int, 8),
    {
        proof {
            use_type_invariant(self);
        }
        let n = self.len as usize;
        let mut i: usize = 0;
        while i < n
            invariant
                i <= n <= 8,
                n == self@.len(),
                forall|k: int| 0 <= k < n ==> #[trigger] self.data[k] < 35,
                forall|k: int| 0 <= k < n ==> #[trigger] self@[k] == self.data[k],
                forall|k: int| 0 <= k < i ==> #[trigger] buf[k] == seed_char(self@[k] as int),
                forall|k: int| n <= k < 8 ==> #[trigger] buf[k] == old(buf)[k],
            decreases n - i,
        {
            buf[i] = SEED_CHARS[self.data[i] as usize];
            i += 1;
        }
        assert(buf@.subrange(0, n as int) =~= render_digits(self@));
        assert(buf@.subrange(n as int, 8) =~= old(buf)@.subrange(n as int, 8));
        n
    }

    /// Whether this is the last 8-symbol seed, after which no seed follows.
    pub fn is_final(&self) -> (r: bool)
        ensures
            r == (self@.len() == 8 && all_max(self@)),
    {
        proof {
            use_type_invariant(self);
        }
        if self.len != 8 {
            return false;
        }
        let mut i: usize = 0;
        while i < 8
            invariant
                i <= 8,
                self.len == 8,
                self.well_formed(),
                forall|k: int| 0 <= k < i ==> #[trigger] self.data@[k] == 34,
            decreases 8 - i,
        {
            if self.data[i] != 34 {
                assert(self@[i as int] == self.data@[i as int]);
                return false;
            }
            i += 1;
        }
        assert forall|k: int| 0 <= k < self@.len() implies #[trigger] self@[k] == 34 by {
            assert(self@[k] == self.data@[k]);
        }
        true
    }

    /// Bump to the next seed in lexicographic alphabet order, growing the
    /// length if all positions wrap.
    pub fn increment(&mut self)
        requires
            !(old(self)@.len() == 8 && all_max(old(self)@)),
        ensures
            all_max(old(self)@) ==> final(self)@ == Seq::new(old(self)@.len() + 1, |k: int| 0u8),
            !all_max(old(self)@) ==> final(self)@.len() == old(self)@.len() && rank_of(final(self)@)
                == rank_of(old(self)@) + 1,
            rank_of(old(self)@) + 1 < pow35(old(self)@.len()) ==> final(self)@.len() == old(
                self,
            )@.len() && rank_of(final(self)@) == rank_of(old(self)@) + 1,
            rank_of(old(self)@) + 1 == pow35(old(self)@.len()) ==> final(self)@.len() == old(
                self,
            )@.len() + 1 && rank_of(final(self)@) == 0,
            valid_digits(final(self)@),
            final(self)@ == next_digits(old(self)@),
            final(self).well_formed(),
    {
        proof {
            use_type_invariant(&*self);
            lemma_seed_valid(*self);
            lemma_all_max_iff_top_rank(self@);
            lemma_rank_of_zeros((self@.len() + 1) as nat);
        }
        let ghost d = self@;
        let mut data = self.data;
        let len = self.len;
        let mut i: usize = len as usize;
        loop
            invariant_except_break
                i <= len <= 8,
                1 <= len,
                d == self@,
                d.len() == len,
                forall|k: int| 0 <= k < len ==> #[trigger] d[k] == self.data[k],
                forall|k: int| 0 <= k < 8 ==> #[trigger] self.data[k] < 35,
                forall|k: int| 0 <= k < i ==> #[trigger] data[k] == d[k],
                forall|k: int| i <= k < len ==> #[trigger] data[k] == 0,
                forall|k: int| i <= k < len ==> #[trigger] d[k] == 34,
                forall|k: int| len <= k < 8 ==> #[trigger] data[k] == 0,
                !(d.len() == 8 && all_max(d)),
            ensures
                valid_digits(self@),
                (all_max(d) ==> self@ =~= Seq::new(d.len() + 1, |k: int| 0u8)),
                (!all_max(d) ==> self@.len() == d.len() && rank_of(self@) == rank_of(d) + 1),
                self@ == next_digits(d),
            decreases i,
        {
            if i == 0 {
                assert(all_max(d));
                let grown = Seed { data, len: len + 1 };
                assert(grown@ =~= Seq::new(d.len() + 1, |k: int| 0u8));
                assert(valid_digits(grown@)) by {
                    assert forall|j: int| 0 <= j < grown@.len() implies #[trigger] grown@[j] < 35 by {
                        assert(grown@[j] == grown.data@[j]);
                    }
                }
                *self = grown;
                break;
            }
            let k = i - 1;
            if data[k] + 1 < NUM_CHARS as u8 {
                data[k] = data[k] + 1;
                let next = Seed { data, len };
                proof {
                    assert(!all_max(d)) by {
                        assert(d[k as int] != 34);
                    }
                    lemma_increment_rank(d, k as int);
                    assert(next@ =~= d.subrange(0, k as int).push((d[k as int] + 1) as u8) + Seq::new(
                        (len - i) as nat,
                        |j: int| 0u8,
                    ));
                }
                assert(valid_digits(next@)) by {
                    assert forall|j: int| 0 <= j < next@.len() implies #[trigger] next@[j] < 35 by {
                        assert(next@[j] == next.data@[j]);
                    }
                }
                proof {
                    lemma_digits_of_rank(next@);
                }
                *self = next;
                break;
            }
            data[k] = 0;
            i = k;
        }
    }
}

/// `n` zero digits have rank zero.
proof fn lemma_rank_of_zeros(n: nat)
    ensures
        rank_of(Seq::new(n, |k: int| 0u8)) == 0,
    decreases n,
{
    if n > 0 {
        assert(Seq::new(n, |k: int| 0u8).drop_last() =~= Seq::new((n - 1) as nat, |k: int| 0u8));
        lemma_rank_of_zeros((n - 1) as nat);
    }
}

/// For alphabet indices, every digit is the last symbol (every symbol is
/// `Z`) exactly when the rank is the largest of its length, `35^len - 1`.
pub proof fn lemma_all_max_iff_top_rank(d: Seq<u8>)
    requires
        forall|i: int| 0 <= i < d.len() ==> #[trigger] d[i] < 35,
    ensures
        all_max(d) <==> rank_of(d) + 1 == pow35(d.len()),
    decreases d.len(),
{
    if d.len() > 0 {
        let p = d.drop_last();
        assert forall|i: int| 0 <= i < p.len() implies #[trigger] p[i] < 35 by {
            assert(p[i] == d[i]);
        }
        lemma_all_max_iff_top_rank(p);
        lemma_rank_bound(p);
        let rp = rank_of(p) as int;
        let big = pow35(p.len()) as int;
        let x = d.last() as int;
        assert(rank_of(d) == rp * 35 + x);
        assert(pow35(d.len()) == 35 * big);
        assert(all_max(d) <==> (all_max(p) && x == 34)) by {
            if all_max(d) {
                assert forall|i: int| 0 <= i < p.len() implies #[trigger] p[i] == 34 by {
                    assert(p[i] == d[i]);
                }
                assert(d[d.len() - 1] == 34);
            }
            if all_max(p) && x == 34 {
                assert forall|i: int| 0 <= i < d.len() implies #[trigger] d[i] == 34 by {
                    if i < d.len() - 1 {
                        assert(p[i] == d[i]);
                    }
                }
            }
        }
        assert(rp * 35 + x + 1 == 35 * big <==> (rp + 1 == big && x == 34)) by (nonlinear_arith)
            requires
                0 <= rp < big,
                0 <= x < 35,
        ;
    }
}

/// Adding one at position `k` of digits that end in 34s after `k`.
proof fn lemma_increment_rank(d: Seq<u8>, k: int)
    requires
        0 <= k < d.len(),
        d[k] < 34,
        forall|j: int| k < j < d.len() ==> #[trigger] d[j] == 34,
    ensures
        rank_of(d.subrange(0, k).push((d[k] + 1) as u8) + Seq::new(
            (d.len() - k - 1) as nat,
            |j: int| 0u8,
        )) == rank_of(d) + 1,
    decreases d.len() - k,
{
    let e = d.subrange(0, k).push((d[k] + 1) as u8) + Seq::new(
        (d.len() - k - 1) as nat,
        |j: int| 0u8,
    );
    if k == d.len() - 1 {
        assert(e.drop_last() =~= d.subrange(0, k));
        assert(d.drop_last() =~= d.subrange(0, k));
    } else {
        let d2 = d.drop_last();
        lemma_increment_rank(d2, k);
        let e2 = d2.subrange(0, k).push((d2[k] + 1) as u8) + Seq::new(
            (d2.len() - k - 1) as nat,
            |j: int| 0u8,
        );
        assert(e.drop_last() =~= e2);
        assert(e.last() == 0);
        assert(d.last() == 34);
    }
}

/// Digits below 35 are the digits of their own value.
pub proof fn lemma_digits_of_rank(d: Seq<u8>)
    requires
        forall|i: int| 0 <= i < d.len() ==> #[trigger] d[i] < 35,
    ensures
        digits_of(rank_of(d), d.len()) == d,
    decreases d.len(),
{
    if d.len() == 0 {
        assert(digits_of(rank_of(d), 0) =~= d);
    } else {
        let p = d.drop_last();
        assert forall|i: int| 0 <= i < p.len() implies #[trigger] p[i] < 35 by {
            assert(p[i] == d[i]);
        }
        lemma_digits_of_rank(p);
        let r = rank_of(d);
        assert(d.last() < 35);
        lemma_fundamental_div_mod_converse(r as int, 35, rank_of(p) as int, d.last() as int);
        lemma_digits_drop_last(r, d.len());
        let e = digits_of(r, d.len());
        assert(e =~= e.drop_last().push(e.last()));
        assert(d =~= p.push(d.last()));
    }
}

/// Position of byte `b` in the seed alphabet.
fn position_of(b: u8) -> (r: Option<u8>)
    ensures
        r == char_index(b),
{
    let mut i: usize = 0;
    while i < NUM_CHARS
        invariant
            i <= 35,
            forall|k: int| 0 <= k < i ==> SEED_CHARS[k] != b,
        decreases 35 - i,
    {
        if SEED_CHARS[i] == b {
            return Some(i as u8);
        }
        i += 1;
    }
    None
}

/// Parsing the rendering of a seed gives the seed back.
pub proof fn lemma_parse_render(d: Seq<u8>)
    requires
        valid_digits(d),
    ensures
        spec_parse(render_digits(d)) == Some(d),
{
    let r = render_digits(d);
    assert forall|i: int| 0 <= i < r.len() implies (#[trigger] char_index(r[i])) is Some by {
        lemma_char_index_of_seed_char(d[i] as int);
    }
    assert(Seq::new(r.len(), |i: int| char_index(r[i])->0) =~= d) by {
        assert forall|i: int| 0 <= i < r.len() implies char_index(r[i])->0 == d[i] by {
            lemma_char_index_of_seed_char(d[i] as int);
        }
    }
}

/// Rendering a parsed seed gives back the parsed bytes.
pub proof fn lemma_render_parse(bytes: Seq<u8>)
    requires
        spec_parse(bytes) is Some,
    ensures
        render_digits(spec_parse(bytes)->0) == bytes,
{
    let d = spec_parse(bytes)->0;
    assert(render_digits(d) =~= bytes) by {
        assert forall|i: int| 0 <= i < bytes.len() implies render_digits(d)[i] == bytes[i] by {
            assert(char_index(bytes[i]) is Some);
        }
    }
}

/// A seed built from a rank reads back as that rank modulo `35^len`.
pub proof fn lemma_from_rank_round_trip(rank: nat, len: nat)
    ensures
        rank_of(digits_of(rank, len)) == rank % pow35(len),
        rank < pow35(len) ==> rank_of(digits_of(rank, len)) == rank,
{
    lemma_rank_of_digits(rank, len);
    if rank < pow35(len) {
        lemma_small_mod(rank, pow35(len));
    }
}


/// Whether `x` and `y` agree before position `k` and `x` is smaller at `k`.
pub open spec fn first_less_at(x: Seq<u8>, y: Seq<u8>, k: int) -> bool {
    &&& 0 <= k < x.len()
    &&& k < y.len()
    &&& x.subrange(0, k) == y.subrange(0, k)
    &&& x[k] < y[k]
}

/// Whether `x` comes strictly before `y` in lexicographic byte order (for
/// sequences of one length: they agree up to a position where `x` is smaller).
pub open spec fn lex_less(x: Seq<u8>, y: Seq<u8>) -> bool {
    exists|k: int| #[trigger] first_less_at(x, y, k)
}

/// Base-35 rank order is lexicographic order on digits of one length.
proof fn lemma_rank_lex(a: Seq<u8>, b: Seq<u8>)
    requires
        a.len() == b.len(),
        forall|i: int| 0 <= i < a.len() ==> #[trigger] a[i] < 35,
        forall|i: int| 0 <= i < b.len() ==> #[trigger] b[i] < 35,
    ensures
        rank_of(a) < rank_of(b) <==> lex_less(a, b),
    decreases a.len(),
{
    if a.len() == 0 {
        assert(a =~= Seq::<u8>::empty());
        assert(b =~= Seq::<u8>::empty());
        assert(!lex_less(a, b));
    } else {
        let n = a.len();
        let a1 = a.subrange(1, n as int);
        let b1 = b.subrange(1, n as int);
        assert(a =~= seq![a[0]] + a1);
        assert(b =~= seq![b[0]] + b1);
        assert forall|i: int| 0 <= i < a1.len() implies #[trigger] a1[i] < 35 by {
            assert(a1[i] == a[i + 1]);
        }
        assert forall|i: int| 0 <= i < b1.len() implies #[trigger] b1[i] < 35 by {
            assert(b1[i] == b[i + 1]);
        }
        lemma_rank_prepend(a[0], a1);
        lemma_rank_prepend(b[0], b1);
        lemma_rank_bound(a1);
        lemma_rank_bound(b1);
        lemma_rank_lex(a1, b1);
        let p = pow35(a1.len()) as int;
        let ra = rank_of(a1) as int;
        let rb = rank_of(b1) as int;
        let a0 = a[0] as int;
        let b0 = b[0] as int;
        assert(rank_of(a) == a0 * p + ra);
        assert(rank_of(b) == b0 * p + rb);
        if a0 < b0 {
            assert(a0 * p + ra < b0 * p + rb) by (nonlinear_arith)
                requires
                    0 <= ra < p,
                    0 <= rb,
                    0 <= a0 < b0,
            ;
            assert(a.subrange(0, 0) =~= b.subrange(0, 0));
            assert(first_less_at(a, b, 0));
        } else if a0 > b0 {
            assert(b0 * p + rb < a0 * p + ra) by (nonlinear_arith)
                requires
                    0 <= rb < p,
                    0 <= ra,
                    0 <= b0 < a0,
            ;
            assert forall|k: int| !first_less_at(a, b, k) by {
                if first_less_at(a, b, k) && k > 0 {
                    assert(a.subrange(0, k)[0] == b.subrange(0, k)[0]);
                }
            }
        } else {
            if lex_less(a1, b1) {
                let k = choose|k: int| first_less_at(a1, b1, k);
                assert(a.subrange(0, k + 1) =~= seq![a[0]] + a1.subrange(0, k));
                assert(b.subrange(0, k + 1) =~= seq![b[0]] + b1.subrange(0, k));
                assert(first_less_at(a, b, k + 1));
            }
            if lex_less(a, b) {
                let k = choose|k: int| first_less_at(a, b, k);
                assert(k > 0);
                assert(a1.subrange(0, k - 1) =~= a.subrange(0, k).subrange(1, k));
                assert(b1.subrange(0, k - 1) =~= b.subrange(0, k).subrange(1, k));
                assert(first_less_at(a1, b1, k - 1));
            }
        }
    }
}

/// Rendering keeps lexicographic order: the alphabet's bytes increase with
/// their indices.
proof fn lemma_render_lex(a: Seq<u8>, b: Seq<u8>)
    requires
        forall|i: int| 0 <= i < a.len() ==> #[trigger] a[i] < 35,
        forall|i: int| 0 <= i < b.len() ==> #[trigger] b[i] < 35,
    ensures
        lex_less(render_digits(a), render_digits(b)) <==> lex_less(a, b),
{
    let ra = render_digits(a);
    let rb = render_digits(b);
    assert forall|k: int| 0 <= k <= a.len() && k <= b.len() implies (ra.subrange(0, k)
        == rb.subrange(0, k) <==> a.subrange(0, k) == b.subrange(0, k)) by {
        if ra.subrange(0, k) == rb.subrange(0, k) {
            assert forall|i: int| 0 <= i < k implies a[i] == b[i] by {
                assert(ra.subrange(0, k)[i] == rb.subrange(0, k)[i]);
                assert(a[i] < 35 && b[i] < 35);
            }
            assert(a.subrange(0, k) =~= b.subrange(0, k));
        }
        if a.subrange(0, k) == b.subrange(0, k) {
            assert forall|i: int| 0 <= i < k implies ra[i] == rb[i] by {
                assert(a.subrange(0, k)[i] == b.subrange(0, k)[i]);
            }
            assert(ra.subrange(0, k) =~= rb.subrange(0, k));
        }
    }
    if lex_less(ra, rb) {
        let k = choose|k: int| first_less_at(ra, rb, k);
        assert(a[k] < 35 && b[k] < 35);
        assert(first_less_at(a, b, k));
    }
    if lex_less(a, b) {
        let k = choose|k: int| first_less_at(a, b, k);
        assert(a[k] < 35 && b[k] < 35);
        assert(first_less_at(ra, rb, k));
    }
}

/// Seeds of one length: the rank is below `35^len`, rank order is the
/// lexicographic order of the rendered symbols, and equal ranks mean equal
/// seeds.
pub proof fn lemma_rank_order(a: Seq<u8>, b: Seq<u8>)
    requires
        valid_digits(a),
        valid_digits(b),
        a.len() == b.len(),
    ensures
        rank_of(a) < pow35(a.len()),
        rank_of(a) < rank_of(b) <==> lex_less(render_digits(a), render_digits(b)),
        rank_of(a) == rank_of(b) <==> a == b,
{
    lemma_rank_bound(a);
    lemma_rank_lex(a, b);
    lemma_render_lex(a, b);
    lemma_digits_of_rank(a);
    lemma_digits_of_rank(b);
}


/// Bytes below 128 are the UTF-8 encoding of the characters they stand for.
proof fn lemma_ascii_bytes_encode(b: Seq<u8>)
    requires
        forall|i: int| 0 <= i < b.len() ==> #[trigger] b[i] < 128,
    ensures
        vstd::utf8::encode_utf8(bytes_as_chars(b)) == b,
{
    let c = bytes_as_chars(b);
    assert forall|i: int| 0 <= i < c.len() implies '\0' <= #[trigger] c[i] <= '\u{7f}' by {
        assert(c[i] == b[i] as char);
        assert(b[i] < 128);
    }
    assert(vstd::utf8::is_ascii_chars(c));
    vstd::utf8::is_ascii_chars_encode_utf8(c);
    let e = vstd::utf8::encode_utf8(c);
    assert forall|i: int| 0 <= i < b.len() implies e[i] == b[i] by {
        assert(c[i] as u8 == e[i]);
        assert(c[i] == b[i] as char);
    }
    assert(e =~= b);
}

/// The bytes a seed renders to are ASCII.
proof fn lemma_render_ascii(d: Seq<u8>)
    requires
        valid_digits(d),
    ensures
        forall|i: int| 0 <= i < render_digits(d).len() ==> #[trigger] render_digits(d)[i] < 128,
{
    assert forall|i: int| 0 <= i < render_digits(d).len() implies #[trigger] render_digits(d)[i]
        < 128 by {
        assert(d[i] < 35);
    }
}

/// Parsing the string a seed renders to gives the seed back.
pub proof fn lemma_parse_rendered_str(d: Seq<u8>, s: &str)
    requires
        valid_digits(d),
        s@ == bytes_as_chars(render_digits(d)),
    ensures
        spec_parse(s.spec_bytes()) == Some(d),
{
    lemma_render_ascii(d);
    lemma_ascii_bytes_encode(render_digits(d));
    lemma_parse_render(d);
}

/// A string that parses as a seed is the string that seed renders to.
pub proof fn lemma_render_parsed_str(s: &str)
    requires
        spec_parse(s.spec_bytes()) is Some,
    ensures
        bytes_as_chars(render_digits(spec_parse(s.spec_bytes())->0)) == s@,
{
    let bytes = s.spec_bytes();
    lemma_render_parse(bytes);
    assert forall|i: int| 0 <= i < bytes.len() implies #[trigger] bytes[i] < 128 by {
        assert(char_index(bytes[i]) is Some);
    }
    lemma_ascii_bytes_encode(bytes);
    vstd::utf8::encode_utf8_decode_utf8(s@);
    vstd::utf8::encode_utf8_decode_utf8(bytes_as_chars(bytes));
}

} // verus!
