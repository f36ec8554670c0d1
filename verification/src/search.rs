//! The decisions of the seed scan.
//!
//! A scan walks seeds from a start rank. For each seed the caller evaluates
//! the compiled filter (floating-point work) and hands the score back; the
//! searcher decides whether the seed matches, records the match and moves
//! the cursor to the next seed.

use vstd::prelude::*;
use vstd::string::StringSliceAdditionalSpecFns;

use crate::filter::Compiled;
use crate::seed::{
    all_max, digits_of, lemma_all_max_iff_top_rank, lemma_from_rank_round_trip, next_digits, pow35,
    rank_of, render_digits, Seed,
};
use crate::state::{seed_as_str, RunConfig};
use crate::text::bytes_as_chars;

verus! {

#[derive(Clone, Debug)]
pub struct Match {
    pub seed: String,
    pub rank: u64,
    pub score: u8,
}

pub struct Searcher<'a> {
    pub config: &'a RunConfig,
    pub filter: &'a Compiled,
    pub partial: bool,
    pub min_score: u8,
}

/// The seed reached after `k` steps from rank `start` at length `len`.
pub open spec fn seed_after(start: u64, len: u8, k: nat) -> Seq<u8>
    decreases k,
{
    if k == 0 {
        digits_of(start as nat, len as nat)
    } else {
        next_digits(seed_after(start, len, (k - 1) as nat))
    }
}

/// While no length change intervenes, a scan visits consecutive ranks: the
/// seed after `k` steps from `start` is the seed of rank `start + k`.
pub proof fn lemma_scan_visits_ranks_in_order(start: u64, len: u8, k: nat)
    requires
        start + k < pow35(len as nat),
    ensures
        seed_after(start, len, k) == digits_of((start + k) as nat, len as nat),
    decreases k,
{
    if k > 0 {
        lemma_scan_visits_ranks_in_order(start, len, (k - 1) as nat);
        let r = (start + k - 1) as nat;
        let d = digits_of(r, len as nat);
        lemma_from_rank_round_trip(r, len as nat);
        if all_max(d) {
            lemma_all_max_iff_top_rank(d);
            assert(false);
        }
    }
}

/// Where a scan stands: the seed to evaluate next and how many were scanned.
pub struct ScanCursor {
    seed: Seed,
    start_rank: u64,
    scanned: u64,
    count: u64,
    len: u8,
}

impl ScanCursor {
    #[verifier::type_invariant]
    spec fn inv(self) -> bool {
        &&& 1 <= self.len <= 8
        &&& self.scanned <= self.count
        &&& self.seed@ == seed_after(self.start_rank, self.len, self.scanned as nat)
    }

    /// The digits of the seed to evaluate next.
    pub closed spec fn seed(&self) -> Seq<u8> {
        self.seed@
    }

    /// The rank the scan started from.
    pub closed spec fn start_rank(&self) -> u64 {
        self.start_rank
    }

    /// The number of seeds already scanned.
    pub closed spec fn scanned(&self) -> u64 {
        self.scanned
    }

    /// The number of seeds the scan covers.
    pub closed spec fn count(&self) -> u64 {
        self.count
    }

    /// The seed length the scan started at.
    pub closed spec fn seed_len(&self) -> u8 {
        self.len
    }

    /// Whether every seed of the scan was scanned.
    pub fn done(&self) -> (r: bool)
        ensures
            r == (self.scanned() >= self.count()),
    {
        self.scanned >= self.count
    }

    /// Whether the seed to evaluate next is the last 8-symbol seed, which has
    /// no successor to move on to.
    pub fn at_final_seed(&self) -> (r: bool)
        ensures
            r == (self.seed().len() == 8 && all_max(self.seed())),
    {
        self.seed.is_final()
    }

    /// Whether a match at the current seed has a rank that fits in 64 bits.
    pub fn rank_fits(&self) -> (r: bool)
        ensures
            r == (self.start_rank() + self.scanned() <= u64::MAX),
    {
        self.scanned <= u64::MAX - self.start_rank
    }

    /// Writes the current seed's symbols to `buf`; returns their number.
    pub fn seed_bytes(&self, buf: &mut [u8; 8]) -> (n: usize)
        ensures
            n == self.seed().len(),
            final(buf)@.subrange(0, n as int) == render_digits(self.seed()),
    {
        self.seed.write_to(buf)
    }
}

impl<'a> Searcher<'a> {
    /// Whether a seed with `score` matching clauses is reported: in partial
    /// mode when the score reaches `min_score`, else when every clause holds.
    pub open spec fn spec_passes(&self, score: u8) -> bool {
        if self.partial {
            score >= self.min_score
        } else {
            score == self.filter.total_clauses
        }
    }

    /// Whether a seed with `score` matching clauses is reported.
    pub fn passes(&self, score: u8) -> (r: bool)
        ensures
            r == self.spec_passes(score),
    {
        if self.partial {
            score >= self.min_score
        } else {
            score == self.filter.total_clauses
        }
    }

    /// One step of scoring a seed: a hit adds one; in strict mode a miss
    /// ends the scoring (the seed can no longer pass). Returns the score and
    /// whether to evaluate the next op.
    pub fn tally(&self, score: u8, hit: bool) -> (r: (u8, bool))
        requires
            hit ==> score < 255,
        ensures
            hit ==> r.0 == score + 1 && r.1,
            !hit ==> r == (score, self.partial),
    {
        if hit {
            (score + 1, true)
        } else {
            (score, self.partial)
        }
    }

    /// Starts a scan of `count` seeds from `start_rank` at the configured
    /// seed length.
    pub fn begin_scan(&self, start_rank: u64, count: u64) -> (c: ScanCursor)
        requires
            1 <= self.config.seed_len <= 8,
        ensures
            c.seed() == digits_of(start_rank as nat, self.config.seed_len as nat),
            c.start_rank() == start_rank,
            c.scanned() == 0,
            c.count() == count,
            c.seed_len() == self.config.seed_len,
    {
        let seed = Seed::from_rank(start_rank, self.config.seed_len);
        ScanCursor { seed, start_rank, scanned: 0, count, len: self.config.seed_len }
    }

    /// The match the cursor's seed makes with `score`: the seed, its rank
    /// and the score when the score passes, else none.
    pub fn report(&self, cursor: &ScanCursor, score: u8) -> (r: Option<Match>)
        requires
            self.spec_passes(score) ==> cursor.start_rank() + cursor.scanned() <= u64::MAX,
        ensures
            self.spec_passes(score) ==> (r matches Some(m) && m.seed@ == bytes_as_chars(
                render_digits(cursor.seed()),
            ) && m.rank == cursor.start_rank() + cursor.scanned() && m.score == score),
            !self.spec_passes(score) ==> r is None,
    {
        if self.passes(score) {
            let mut buf = [0u8; 8];
            let n = cursor.seed.write_to(&mut buf);
            let text = seed_as_str(&buf, n as u8);
            Some(Match { seed: text, rank: cursor.start_rank + cursor.scanned, score })
        } else {
            None
        }
    }

    /// Takes the score of the cursor's seed: reports the seed as a match when
    /// the score passes, and moves the cursor to the next seed.
    pub fn record(&self, cursor: &mut ScanCursor, score: u8) -> (r: Option<Match>)
        requires
            old(cursor).scanned() < old(cursor).count(),
            !(old(cursor).seed().len() == 8 && all_max(old(cursor).seed())),
            self.spec_passes(score) ==> old(cursor).start_rank() + old(cursor).scanned()
                <= u64::MAX,
        ensures
            self.spec_passes(score) ==> (r matches Some(m) && m.seed@ == bytes_as_chars(
                render_digits(old(cursor).seed()),
            ) && m.rank == old(cursor).start_rank() + old(cursor).scanned() && m.score == score),
            !self.spec_passes(score) ==> r is None,
            final(cursor).seed() == next_digits(old(cursor).seed()),
            final(cursor).scanned() == old(cursor).scanned() + 1,
            final(cursor).start_rank() == old(cursor).start_rank(),
            final(cursor).count() == old(cursor).count(),
            final(cursor).seed_len() == old(cursor).seed_len(),
    {
        proof {
            use_type_invariant(&*cursor);
        }
        let result = self.report(cursor, score);
        let mut seed = cursor.seed;
        seed.increment();
        let next = ScanCursor {
            seed,
            start_rank: cursor.start_rank,
            scanned: cursor.scanned + 1,
            count: cursor.count,
            len: cursor.len,
        };
        *cursor = next;
        result
    }
}

/// The score a seed gets from its op verdicts `hits`, in evaluation order,
/// as `Searcher::tally` counts it: in partial mode the number of hits; in
/// strict mode the number of hits before the first miss.
pub open spec fn score_of(partial: bool, hits: Seq<bool>) -> nat
    decreases hits.len(),
{
    if hits.len() == 0 {
        0
    } else if hits[0] {
        1 + score_of(partial, hits.subrange(1, hits.len() as int))
    } else if partial {
        score_of(partial, hits.subrange(1, hits.len() as int))
    } else {
        0
    }
}

/// In partial mode the score counts the hits; in strict mode it reaches the
/// number of verdicts exactly when there is no miss.
proof fn lemma_score_counts(partial: bool, h: Seq<bool>)
    ensures
        score_of(partial, h) <= h.len(),
        partial ==> score_of(partial, h) == h.to_multiset().count(true),
        !partial ==> (score_of(partial, h) == h.len() <==> h.to_multiset().count(false) == 0),
    decreases h.len(),
{
    broadcast use vstd::seq_lib::group_to_multiset_ensures;
    broadcast use vstd::multiset::group_multiset_axioms;

    if h.len() == 0 {
        assert(!h.contains(true));
        assert(!h.contains(false));
    } else {
        let rest = h.subrange(1, h.len() as int);
        assert(h.remove(0) =~= rest);
        assert(rest.to_multiset() =~= h.to_multiset().remove(h[0]));
        assert(h.contains(h[0]));
        lemma_score_counts(partial, rest);
        if !h[0] && !partial {
            assert(h.to_multiset().count(false) > 0);
        }
    }
}

/// Whether a seed is reported does not depend on the order in which its op
/// verdicts come: any reordering of the verdicts gives the same answer, so
/// the compiler may order the ops as it likes.
pub proof fn lemma_pass_ignores_op_order(s: Searcher, h1: Seq<bool>, h2: Seq<bool>)
    requires
        h1.len() == s.filter.total_clauses,
        h1.to_multiset() == h2.to_multiset(),
    ensures
        s.spec_passes(score_of(s.partial, h1) as u8) == s.spec_passes(score_of(s.partial, h2) as u8),
{
    broadcast use vstd::seq_lib::group_to_multiset_ensures;

    assert(h2.len() == h2.to_multiset().len());
    lemma_score_counts(s.partial, h1);
    lemma_score_counts(s.partial, h2);
}

/// The 8 little-endian bytes of `v`.
pub open spec fn le_bytes(v: u64) -> Seq<u8> {
    seq![
        v as u8,
        (v >> 8) as u8,
        (v >> 16) as u8,
        (v >> 24) as u8,
        (v >> 32) as u8,
        (v >> 40) as u8,
        (v >> 48) as u8,
        (v >> 56) as u8,
    ]
}

/// `b` right-padded with spaces to 8 bytes.
pub open spec fn space_padded(b: Seq<u8>) -> Seq<u8> {
    Seq::new(8, |i: int| if i < b.len() { b[i] } else { 32u8 })
}

/// The 17-byte record of a match: rank (little-endian), score, seed padded
/// with spaces.
pub open spec fn match_record(m: Match) -> Seq<u8> {
    le_bytes(m.rank) + seq![m.score] + space_padded(vstd::utf8::encode_utf8(m.seed@))
}

/// Appends the 17-byte record of a match: 8 bytes rank LE + 1 byte score +
/// 8 bytes seed (right-padded with spaces).
pub fn push_match_record(out: &mut Vec<u8>, m: &Match)
    requires
        vstd::utf8::encode_utf8(m.seed@).len() <= 8,
    ensures
        final(out)@ == old(out)@ + match_record(*m),
{
    let r = m.rank;
    out.push(r as u8);
    out.push((r >> 8) as u8);
    out.push((r >> 16) as u8);
    out.push((r >> 24) as u8);
    out.push((r >> 32) as u8);
    out.push((r >> 40) as u8);
    out.push((r >> 48) as u8);
    out.push((r >> 56) as u8);
    out.push(m.score);
    let mut buf = [32u8; 8];
    let b = m.seed.as_str().as_bytes();
    let mut i: usize = 0;
    while i < b.len()
        invariant
            b@.len() <= 8,
            i <= b@.len(),
            forall|k: int| 0 <= k < i ==> #[trigger] buf@[k] == b@[k],
            forall|k: int| i <= k < 8 ==> #[trigger] buf@[k] == 32u8,
        decreases b@.len() - i,
    {
        buf[i] = b[i];
        i += 1;
    }
    let mut j: usize = 0;
    let ghost base = out@;
    while j < 8
        invariant
            j <= 8,
            out@ == base + buf@.subrange(0, j as int),
        decreases 8 - j,
    {
        out.push(buf[j]);
        assert(buf@.subrange(0, j + 1) =~= buf@.subrange(0, j as int).push(buf@[j as int]));
        j += 1;
    }
    assert(buf@ =~= space_padded(b@));
    assert(buf@.subrange(0, 8) =~= buf@);
    assert(out@ =~= old(out)@ + match_record(*m));
}

} // verus!
