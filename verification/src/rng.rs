//! The integer core of LuaJIT's tausworthe PRNG.
//!
//! The generator keeps four 64-bit lanes. Seeding turns a double into four
//! lane values (the double's bit patterns, which the caller computes), lifts
//! each lane above its minimum and runs ten warm-up steps. Each draw steps
//! all four lanes and combines them with xor.

use vstd::prelude::*;

verus! {

/// One tausworthe lane step: `(((z << q) ^ z) >> s) ^ ((z & (!0 << k)) << r)`.
pub open spec fn lane_step(z: u64, q: u64, s: u64, k: u64, r: u64) -> u64 {
    (((z << q) ^ z) >> s) ^ ((z & (!0u64 << k)) << r)
}

/// The four lanes after one step.
pub open spec fn taus_next(st: Seq<u64>) -> Seq<u64> {
    seq![
        lane_step(st[0], 31, 45, 1, 18),
        lane_step(st[1], 19, 30, 6, 28),
        lane_step(st[2], 24, 48, 9, 7),
        lane_step(st[3], 21, 39, 17, 8),
    ]
}

/// The combined 64-bit output of one step from lanes `st`.
pub open spec fn taus_out(st: Seq<u64>) -> u64 {
    taus_next(st)[0] ^ taus_next(st)[1] ^ taus_next(st)[2] ^ taus_next(st)[3]
}

/// The lanes after `n` steps.
pub open spec fn taus_iter(st: Seq<u64>, n: nat) -> Seq<u64>
    decreases n,
{
    if n == 0 {
        st
    } else {
        taus_next(taus_iter(st, (n - 1) as nat))
    }
}

/// The smallest value each lane may start from: `2^1, 2^6, 2^9, 2^17`.
pub open spec fn lane_floor(i: int) -> u64 {
    if i == 0 {
        2
    } else if i == 1 {
        64
    } else if i == 2 {
        512
    } else {
        131072
    }
}

/// The lanes a seed's bit patterns start from, before warm-up: a lane below
/// its floor is raised by the floor.
pub open spec fn seeded_lanes(bits: Seq<u64>) -> Seq<u64> {
    Seq::new(
        4,
        |i: int|
            if bits[i] < lane_floor(i) {
                (bits[i] + lane_floor(i)) as u64
            } else {
                bits[i]
            },
    )
}

/// The mantissa-filling bit pattern of a double in `[1, 2)` drawn from `x`.
pub open spec fn unit_double_bits(x: u64) -> u64 {
    (x & 0x000F_FFFF_FFFF_FFFFu64) | 0x3FF0_0000_0000_0000u64
}

/// Every drawn bit pattern is a positive double in `[1, 2)`: sign 0 and the
/// exponent field of 1.0, so the double minus one lies in `[0, 1)`.
pub proof fn lemma_unit_double_in_one_two(x: u64)
    ensures
        unit_double_bits(x) >> 52u64 == 0x3ffu64,
        unit_double_bits(x) & 0x000F_FFFF_FFFF_FFFFu64 == x & 0x000F_FFFF_FFFF_FFFFu64,
{
    assert(((x & 0x000F_FFFF_FFFF_FFFFu64) | 0x3FF0_0000_0000_0000u64) >> 52u64 == 0x3ffu64)
        by (bit_vector);
    assert(((x & 0x000F_FFFF_FFFF_FFFFu64) | 0x3FF0_0000_0000_0000u64) & 0x000F_FFFF_FFFF_FFFFu64
        == x & 0x000F_FFFF_FFFF_FFFFu64) by (bit_vector);
}

/// Steps the four lanes in place and returns the combined output.
pub fn taus_step(state: &mut [u64; 4]) -> (r: u64)
    ensures
        final(state)@ == taus_next(old(state)@),
        r == taus_out(old(state)@),
{
    let mut r: u64 = 0;

    // Lane 0
    let mut z = state[0];
    z = (((z << 31) ^ z) >> 45) ^ ((z & (!0u64 << 1)) << 18);
    r ^= z;
    state[0] = z;

    // Lane 1
    z = state[1];
    z = (((z << 19) ^ z) >> 30) ^ ((z & (!0u64 << 6)) << 28);
    r ^= z;
    state[1] = z;

    // Lane 2
    z = state[2];
    z = (((z << 24) ^ z) >> 48) ^ ((z & (!0u64 << 9)) << 7);
    r ^= z;
    state[2] = z;

    // Lane 3
    z = state[3];
    z = (((z << 21) ^ z) >> 39) ^ ((z & (!0u64 << 17)) << 8);
    r ^= z;
    state[3] = z;

    let ghost z0 = taus_next(old(state)@)[0];
    assert(0u64 ^ z0 == z0) by (bit_vector);
    assert(state@ =~= taus_next(old(state)@));
    r
}

/// Lanes raised to their floors, then warmed up by ten steps.
pub fn seed_lanes(bits: [u64; 4]) -> (st: [u64; 4])
    ensures
        st@ == taus_iter(seeded_lanes(bits@), 10),
{
    let mut r: u32 = 0x11090601;
    let mut state = [0u64; 4];
    let mut i: usize = 0;
    while i < 4
        invariant
            i <= 4,
            r == (if i == 0 {
                0x11090601u32
            } else if i == 1 {
                0x110906u32
            } else if i == 2 {
                0x1109u32
            } else if i == 3 {
                0x11u32
            } else {
                0u32
            }),
            forall|k: int| 0 <= k < i ==> #[trigger] state[k] == seeded_lanes(bits@)[k],
        decreases 4 - i,
    {
        let sh = r & 255;
        assert(sh == (if i == 0 {
            1u32
        } else if i == 1 {
            6u32
        } else if i == 2 {
            9u32
        } else {
            17u32
        })) by {
            if i == 0 {
                assert(0x11090601u32 & 255 == 1u32) by (bit_vector);
            } else if i == 1 {
                assert(0x110906u32 & 255 == 6u32) by (bit_vector);
            } else if i == 2 {
                assert(0x1109u32 & 255 == 9u32) by (bit_vector);
            } else {
                assert(0x11u32 & 255 == 17u32) by (bit_vector);
            }
        }
        let m: u32 = 1u32 << sh;
        assert(m as u64 == lane_floor(i as int)) by {
            assert(1u32 << 1u32 == 2u32) by (bit_vector);
            assert(1u32 << 6u32 == 64u32) by (bit_vector);
            assert(1u32 << 9u32 == 512u32) by (bit_vector);
            assert(1u32 << 17u32 == 131072u32) by (bit_vector);
        }
        assert(r >> 8 == (if i == 0 {
            0x110906u32
        } else if i == 1 {
            0x1109u32
        } else if i == 2 {
            0x11u32
        } else {
            0u32
        })) by {
            assert(0x11090601u32 >> 8u32 == 0x110906u32) by (bit_vector);
            assert(0x110906u32 >> 8u32 == 0x1109u32) by (bit_vector);
            assert(0x1109u32 >> 8u32 == 0x11u32) by (bit_vector);
            assert(0x11u32 >> 8u32 == 0u32) by (bit_vector);
        }
        r >>= 8;
        let mut u: u64 = bits[i];
        if u < m as u64 {
            u += m as u64;
        }
        state[i] = u;
        i += 1;
    }
    assert(state@ =~= seeded_lanes(bits@));
    let ghost start = state@;
    let mut n: usize = 0;
    while n < 10
        invariant
            n <= 10,
            state@ == taus_iter(start, n as nat),
            start == seeded_lanes(bits@),
        decreases 10 - n,
    {
        taus_step(&mut state);
        n += 1;
    }
    state
}

/// The bits of lane `i` that its step feeds back: all but the lowest 1, 6,
/// 9 or 17.
pub open spec fn live_mask(i: int) -> u64 {
    if i == 0 {
        !0u64 << 1u64
    } else if i == 1 {
        !0u64 << 6u64
    } else if i == 2 {
        !0u64 << 9u64
    } else {
        !0u64 << 17u64
    }
}

/// Every lane has one of its fed-back bits set.
pub open spec fn lanes_live(st: Seq<u64>) -> bool {
    forall|i: int| 0 <= i < 4 ==> #[trigger] st[i] & live_mask(i) != 0
}

proof fn lemma_lane0_live(z: u64)
    by (bit_vector)
    requires
        z & (!0u64 << 1u64) != 0,
    ensures
        ((((z << 31u64) ^ z) >> 45u64) ^ ((z & (!0u64 << 1u64)) << 18u64)) & (!0u64 << 1u64) != 0,
{
}

proof fn lemma_lane1_live(z: u64)
    by (bit_vector)
    requires
        z & (!0u64 << 6u64) != 0,
    ensures
        ((((z << 19u64) ^ z) >> 30u64) ^ ((z & (!0u64 << 6u64)) << 28u64)) & (!0u64 << 6u64) != 0,
{
}

proof fn lemma_lane2_live(z: u64)
    by (bit_vector)
    requires
        z & (!0u64 << 9u64) != 0,
    ensures
        ((((z << 24u64) ^ z) >> 48u64) ^ ((z & (!0u64 << 9u64)) << 7u64)) & (!0u64 << 9u64) != 0,
{
}

proof fn lemma_lane3_live(z: u64)
    by (bit_vector)
    requires
        z & (!0u64 << 17u64) != 0,
    ensures
        ((((z << 21u64) ^ z) >> 39u64) ^ ((z & (!0u64 << 17u64)) << 8u64)) & (!0u64 << 17u64)
            != 0,
{
}

/// A step keeps every live lane live.
pub proof fn lemma_step_keeps_lanes_live(st: Seq<u64>)
    requires
        st.len() == 4,
        lanes_live(st),
    ensures
        lanes_live(taus_next(st)),
{
    assert(st[0] & live_mask(0) != 0);
    assert(st[1] & live_mask(1) != 0);
    assert(st[2] & live_mask(2) != 0);
    assert(st[3] & live_mask(3) != 0);
    lemma_lane0_live(st[0]);
    lemma_lane1_live(st[1]);
    lemma_lane2_live(st[2]);
    lemma_lane3_live(st[3]);
    let t = taus_next(st);
    assert forall|i: int| 0 <= i < 4 implies #[trigger] t[i] & live_mask(i) != 0 by {
        if i == 0 {
        } else if i == 1 {
        } else if i == 2 {
        } else {
        }
    }
}

proof fn lemma_floor_makes_live(z: u64, i: int)
    requires
        0 <= i < 4,
        z >= lane_floor(i),
    ensures
        z & live_mask(i) != 0,
{
    if i == 0 {
        assert(z >= 2 ==> z & (!0u64 << 1u64) != 0) by (bit_vector);
    } else if i == 1 {
        assert(z >= 64 ==> z & (!0u64 << 6u64) != 0) by (bit_vector);
    } else if i == 2 {
        assert(z >= 512 ==> z & (!0u64 << 9u64) != 0) by (bit_vector);
    } else {
        assert(z >= 131072 ==> z & (!0u64 << 17u64) != 0) by (bit_vector);
    }
}

/// However it was seeded, the generator never reaches a state in which a
/// lane has lost all its fed-back bits (which would pin that lane's output
/// to a fixed pattern): seeding lifts each lane to its floor, and every
/// step keeps the lanes live.
pub proof fn lemma_seeded_lanes_stay_live(bits: Seq<u64>, n: nat)
    requires
        bits.len() == 4,
    ensures
        lanes_live(taus_iter(seeded_lanes(bits), n)),
        taus_iter(seeded_lanes(bits), n).len() == 4,
    decreases n,
{
    if n == 0 {
        let s = seeded_lanes(bits);
        assert forall|i: int| 0 <= i < 4 implies #[trigger] s[i] & live_mask(i) != 0 by {
            lemma_floor_makes_live(s[i], i);
        }
    } else {
        lemma_seeded_lanes_stay_live(bits, (n - 1) as nat);
        lemma_step_keeps_lanes_live(taus_iter(seeded_lanes(bits), (n - 1) as nat));
    }
}

/// LuaJIT-compatible PRNG state: four 64-bit lanes.
#[derive(Clone, Copy, Debug)]
pub struct LuaRandom {
    state: [u64; 4],
}

impl View for LuaRandom {
    type V = Seq<u64>;

    /// The four lanes.
    closed spec fn view(&self) -> Seq<u64> {
        self.state@
    }
}

impl LuaRandom {
    /// Seeds the generator from the bit patterns of the four doubles that
    /// LuaJIT's `random_seed` derives from the seed value, one per lane.
    pub fn from_seed_bits(bits: [u64; 4]) -> (r: Self)
        ensures
            r@ == taus_iter(seeded_lanes(bits@), 10),
    {
        LuaRandom { state: seed_lanes(bits) }
    }

    /// Step the four-lane tausworthe and return the combined 64-bit output.
    pub fn rand_int(&mut self) -> (r: u64)
        ensures
            final(self)@ == taus_next(old(self)@),
            r == taus_out(old(self)@),
    {
        taus_step(&mut self.state)
    }

    /// The bit pattern of the next double in `[1, 2)`: 52 drawn mantissa bits
    /// under a zero exponent. `math.random()` is this double minus one.
    pub fn next_double_bits(&mut self) -> (r: u64)
        ensures
            final(self)@ == taus_next(old(self)@),
            r == unit_double_bits(taus_out(old(self)@)),
    {
        let bits = self.rand_int();
        (bits & 0x000F_FFFF_FFFF_FFFF) | 0x3FF0_0000_0000_0000
    }
}

} // verus!
