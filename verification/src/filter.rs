//! Filter DSL: clauses, their compiled form, and the compiler.
//!
//! Names in clauses (jokers, tags, bosses, vouchers, cards) compile to a
//! 16-bit FNV-1a digest; editions, stickers and seals compile to small
//! indices. Compiled ops are ordered by an estimate of how rarely they hold,
//! rarest first, keeping clause order among equal estimates.

use vstd::prelude::*;
use vstd::string::StringSliceAdditionalSpecFns;

use crate::binary64::{
    double_lt, double_min, double_mul, double_one, is_double, lemma_bit_len_bounds,
    lemma_bit_len_range, lemma_p2_adds, lemma_p2_to_64, lemma_p2_values, lemma_product_range,
    lemma_round_double, p2, round_double, round_to_double,
};
use crate::text::{bytes_eq, lemma_ascii_str_bytes};

verus! {

broadcast use vstd::seq_lib::group_seq_properties;

#[derive(Debug)]
pub enum Clause {
    /// "Ante N shop slot S contains joker X, optional edition E, optional sticker"
    /// `slot=255` (sentinel) → ANY of the first 16 slots (covers default 4-slot shop
    /// + up to 12 rerolls without overshooting).
    AnteShopHasJoker {
        ante: u8,
        slot: u8,
        joker: String,
        edition: Option<String>,
        sticker: Option<String>,
    },
    /// "Ante N tag at position P is X". position 0 = small-blind tag, 1 = big-blind.
    AnteTagIs { ante: u8, position: u8, tag: String },
    /// "Ante N boss is X"
    AnteBossIs { ante: u8, boss: String },
    /// "Voucher slot V is X"
    VoucherIs { ante: u8, voucher: String },
    /// Pack contents — "ante N pack P contains card X"
    AntePackContains { ante: u8, pack_index: u8, card: String },
    /// "Ante N, ANY of the first `max_packs` shop packs contains card X."
    AnteAnyPackContains { ante: u8, max_packs: u8, card: String },
    /// Legendary joker via Soul resolution.
    AnteSoulIs { ante: u8, max_packs: u8, joker: String },
    /// Rare joker via Wraith resolution.
    AnteWraithIs { ante: u8, max_packs: u8, joker: String },
    /// Standard-pack card constraints. `base` empty = any rank/suit; same for
    /// the other Option fields.
    AnteStandardCardIs {
        ante: u8,
        max_packs: u8,
        base: String,
        enhancement: Option<String>,
        edition: Option<String>,
        seal: Option<String>,
    },
    /// Disjunction.
    AnyOf { clauses: Vec<Clause> },
}

#[derive(Debug)]
pub struct Filter {
    pub clauses: Vec<Clause>,
    /// When true, return matches that satisfy >= `min_score` clauses, ranked.
    pub partial: bool,
    pub min_score: Option<u8>,
}

impl Default for Filter {
    /// No clauses, strict mode, no minimum score.
    fn default() -> (r: Self)
        ensures
            r.clauses@.len() == 0,
            !r.partial,
            r.min_score is None,
    {
        Filter { clauses: Vec::new(), partial: false, min_score: None }
    }
}

#[derive(Debug)]
pub struct Compiled {
    pub ops: Vec<Op>,
    pub total_clauses: u8,
}

#[derive(Debug)]
pub enum Op {
    HasJoker { ante: u8, slot: u8, joker_id: u16, edition: Option<u8>, sticker: Option<u8> },
    TagIs { ante: u8, position: u8, tag_id: u16 },
    BossIs { ante: u8, boss_id: u16 },
    VoucherIs { ante: u8, voucher_id: u16 },
    PackContains { ante: u8, pack_index: u8, card_id: u16 },
    AnyPackContains { ante: u8, max_packs: u8, card_id: u16 },
    SoulIs { ante: u8, max_packs: u8, joker_id: u16 },
    WraithIs { ante: u8, max_packs: u8, joker_id: u16 },
    StandardCardIs {
        ante: u8,
        max_packs: u8,
        base_id: u16,
        enhancement: Option<u16>,
        edition: Option<u8>,
        seal: Option<u8>,
    },
    AnyOf { ops: Vec<Op> },
}

// ---------------------------------------------------------------------------
// Name digests and indices
// ---------------------------------------------------------------------------

/// 32-bit FNV-1a over `b`.
pub open spec fn fnv1a32(b: Seq<u8>) -> u32
    decreases b.len(),
{
    if b.len() == 0 {
        2166136261u32
    } else {
        (fnv1a32(b.drop_last()) ^ (b.last() as u32)).wrapping_mul(16777619u32)
    }
}

/// The 16-bit digest of a name's bytes: the two halves of FNV-1a xored.
pub open spec fn hash16(b: Seq<u8>) -> u16 {
    ((fnv1a32(b) >> 16) ^ fnv1a32(b)) as u16
}

/// Edition index of a name: foil 1, holographic 2, polychrome 3, negative 4, else 0.
pub open spec fn edition_id(b: Seq<u8>) -> u8 {
    if b == "foil".spec_bytes() {
        1
    } else if b == "holographic".spec_bytes() {
        2
    } else if b == "polychrome".spec_bytes() {
        3
    } else if b == "negative".spec_bytes() {
        4
    } else {
        0
    }
}

/// Sticker index of a name: eternal 1, perishable 2, rental 3, else 0.
pub open spec fn sticker_id(b: Seq<u8>) -> u8 {
    if b == "eternal".spec_bytes() {
        1
    } else if b == "perishable".spec_bytes() {
        2
    } else if b == "rental".spec_bytes() {
        3
    } else {
        0
    }
}

/// Whether `b` spells one of a seal's three accepted names.
pub open spec fn seal_named(b: Seq<u8>, short: &str, lower: &str, title: &str) -> bool {
    b == short.spec_bytes() || b == lower.spec_bytes() || b == title.spec_bytes()
}

/// Seal index of a name: red 1, blue 2, gold 3, purple 4, else 0.
pub open spec fn seal_id(b: Seq<u8>) -> u8 {
    if seal_named(b, "red", "red seal", "Red Seal") {
        1
    } else if seal_named(b, "blue", "blue seal", "Blue Seal") {
        2
    } else if seal_named(b, "gold", "gold seal", "Gold Seal") {
        3
    } else if seal_named(b, "purple", "purple seal", "Purple Seal") {
        4
    } else {
        0
    }
}

/// The bytes of " Card": a space, then 'C', 'a', 'r', 'd'.
pub open spec fn card_suffix() -> Seq<u8> {
    seq![32u8, 67u8, 97u8, 114u8, 100u8]
}

/// Whether a name ends in the word " Card", as the long form of an
/// enhancement name does ("Glass Card").
pub open spec fn ends_in_card(b: Seq<u8>) -> bool {
    b.len() >= 5 && b.subrange(b.len() - 5, b.len() as int) == card_suffix()
}

/// The short form of an enhancement name: "Glass Card" becomes "Glass";
/// a name without the trailing " Card" is its own short form.
pub open spec fn enhancement_short(b: Seq<u8>) -> Seq<u8> {
    if ends_in_card(b) {
        b.subrange(0, b.len() - 5)
    } else {
        b
    }
}

/// Enhancement digest of a name: the digest of its short form, so that the
/// short and the long form of a name digest alike.
pub open spec fn enhancement_id(b: Seq<u8>) -> u16 {
    hash16(enhancement_short(b))
}

/// The names of editions, stickers and seals and the indices they compile
/// to: foil 1, holographic 2, polychrome 3, negative 4; eternal 1,
/// perishable 2, rental 3; each seal in its short, lower-case and title-case
/// form: red 1, blue 2, gold 3, purple 4.
pub proof fn lemma_name_indices()
    ensures
        edition_id("foil".spec_bytes()) == 1,
        edition_id("holographic".spec_bytes()) == 2,
        edition_id("polychrome".spec_bytes()) == 3,
        edition_id("negative".spec_bytes()) == 4,
        sticker_id("eternal".spec_bytes()) == 1,
        sticker_id("perishable".spec_bytes()) == 2,
        sticker_id("rental".spec_bytes()) == 3,
        seal_id("red".spec_bytes()) == 1,
        seal_id("red seal".spec_bytes()) == 1,
        seal_id("Red Seal".spec_bytes()) == 1,
        seal_id("blue".spec_bytes()) == 2,
        seal_id("blue seal".spec_bytes()) == 2,
        seal_id("Blue Seal".spec_bytes()) == 2,
        seal_id("gold".spec_bytes()) == 3,
        seal_id("gold seal".spec_bytes()) == 3,
        seal_id("Gold Seal".spec_bytes()) == 3,
        seal_id("purple".spec_bytes()) == 4,
        seal_id("purple seal".spec_bytes()) == 4,
        seal_id("Purple Seal".spec_bytes()) == 4,
{
    reveal_strlit("foil");
    lemma_ascii_str_bytes("foil");
    reveal_strlit("holographic");
    lemma_ascii_str_bytes("holographic");
    reveal_strlit("polychrome");
    lemma_ascii_str_bytes("polychrome");
    reveal_strlit("negative");
    lemma_ascii_str_bytes("negative");
    reveal_strlit("eternal");
    lemma_ascii_str_bytes("eternal");
    reveal_strlit("perishable");
    lemma_ascii_str_bytes("perishable");
    reveal_strlit("rental");
    lemma_ascii_str_bytes("rental");
    reveal_strlit("red");
    lemma_ascii_str_bytes("red");
    reveal_strlit("red seal");
    lemma_ascii_str_bytes("red seal");
    reveal_strlit("Red Seal");
    lemma_ascii_str_bytes("Red Seal");
    reveal_strlit("blue");
    lemma_ascii_str_bytes("blue");
    reveal_strlit("blue seal");
    lemma_ascii_str_bytes("blue seal");
    reveal_strlit("Blue Seal");
    lemma_ascii_str_bytes("Blue Seal");
    reveal_strlit("gold");
    lemma_ascii_str_bytes("gold");
    reveal_strlit("gold seal");
    lemma_ascii_str_bytes("gold seal");
    reveal_strlit("Gold Seal");
    lemma_ascii_str_bytes("Gold Seal");
    reveal_strlit("purple");
    lemma_ascii_str_bytes("purple");
    reveal_strlit("purple seal");
    lemma_ascii_str_bytes("purple seal");
    reveal_strlit("Purple Seal");
    lemma_ascii_str_bytes("Purple Seal");
    assert("gold".spec_bytes()[0] != "blue".spec_bytes()[0]);
    assert("gold seal".spec_bytes()[0] != "blue seal".spec_bytes()[0]);
    assert("gold seal".spec_bytes()[0] != "Blue Seal".spec_bytes()[0]);
    assert("Gold Seal".spec_bytes()[0] != "blue seal".spec_bytes()[0]);
    assert("Gold Seal".spec_bytes()[0] != "Blue Seal".spec_bytes()[0]);
}

/// The bytes of a `String`.
pub open spec fn str_bytes(s: String) -> Seq<u8> {
    vstd::utf8::encode_utf8(s@)
}

/// The enhancement digest of an optional name.
pub open spec fn opt_enhancement(s: Option<String>) -> Option<u16> {
    match s {
        Some(n) => Some(enhancement_id(str_bytes(n))),
        None => None,
    }
}

/// The edition index of an optional name.
pub open spec fn opt_edition(s: Option<String>) -> Option<u8> {
    match s {
        Some(n) => Some(edition_id(str_bytes(n))),
        None => None,
    }
}

/// The sticker index of an optional name.
pub open spec fn opt_sticker(s: Option<String>) -> Option<u8> {
    match s {
        Some(n) => Some(sticker_id(str_bytes(n))),
        None => None,
    }
}

/// The seal index of an optional name.
pub open spec fn opt_seal(s: Option<String>) -> Option<u8> {
    match s {
        Some(n) => Some(seal_id(str_bytes(n))),
        None => None,
    }
}

/// FNV-1a digest, folded to 16 bits, of the first `n` bytes of `bytes`.
fn hash16_prefix(bytes: &[u8], n: usize) -> (r: u16)
    requires
        n <= bytes@.len(),
    ensures
        r == hash16(bytes@.subrange(0, n as int)),
{
    let mut h: u32 = 2166136261;
    let mut i: usize = 0;
    while i < n
        invariant
            i <= n <= bytes@.len(),
            h == fnv1a32(bytes@.subrange(0, i as int)),
        decreases n - i,
    {
        assert(bytes@.subrange(0, i + 1).drop_last() =~= bytes@.subrange(0, i as int));
        h = (h ^ bytes[i] as u32).wrapping_mul(16777619);
        i += 1;
    }
    ((h >> 16) ^ h) as u16
}

/// FNV-1a digest folded to 16 bits.
fn stable_hash16(s: &str) -> (r: u16)
    ensures
        r == hash16(s.spec_bytes()),
{
    let bytes = s.as_bytes();
    assert(bytes@.subrange(0, bytes@.len() as int) =~= bytes@);
    hash16_prefix(bytes, bytes.len())
}

/// The 16-bit digest the filter uses for every item name.
pub fn stable_hash16_u16(s: &str) -> (r: u16)
    ensures
        r == hash16(s.spec_bytes()),
{
    stable_hash16(s)
}

fn joker_name_to_id(name: &str) -> (r: u16)
    ensures
        r == hash16(name.spec_bytes()),
{
    stable_hash16(name)
}

fn tag_name_to_id(name: &str) -> (r: u16)
    ensures
        r == hash16(name.spec_bytes()),
{
    stable_hash16(name)
}

fn boss_name_to_id(name: &str) -> (r: u16)
    ensures
        r == hash16(name.spec_bytes()),
{
    stable_hash16(name)
}

fn voucher_name_to_id(name: &str) -> (r: u16)
    ensures
        r == hash16(name.spec_bytes()),
{
    stable_hash16(name)
}

fn card_name_to_id(name: &str) -> (r: u16)
    ensures
        r == hash16(name.spec_bytes()),
{
    stable_hash16(name)
}

/// Digest of an enhancement name, taken over its short form.
pub(crate) fn enhancement_name_to_id(name: &str) -> (r: u16)
    ensures
        r == enhancement_id(name.spec_bytes()),
{
    let b = name.as_bytes();
    let n = b.len();
    if n >= 5 && b[n - 5] == 32 && b[n - 4] == 67 && b[n - 3] == 97 && b[n - 2] == 114 && b[n
        - 1] == 100 {
        assert(b@.subrange(n - 5, n as int) =~= card_suffix());
        hash16_prefix(b, n - 5)
    } else {
        proof {
            if n >= 5 {
                let t = b@.subrange(n - 5, n as int);
                if t == card_suffix() {
                    assert(t[0] == b@[n - 5]);
                    assert(t[1] == b@[n - 4]);
                    assert(t[2] == b@[n - 3]);
                    assert(t[3] == b@[n - 2]);
                    assert(t[4] == b@[n - 1]);
                }
            }
        }
        assert(b@.subrange(0, n as int) =~= b@);
        hash16_prefix(b, n)
    }
}

fn is(name: &str, lit: &str) -> (r: bool)
    ensures
        r == (name.spec_bytes() == lit.spec_bytes()),
{
    bytes_eq(name.as_bytes(), lit.as_bytes())
}

fn edition_name_to_id(name: &str) -> (r: u8)
    ensures
        r == edition_id(name.spec_bytes()),
{
    if is(name, "foil") {
        1
    } else if is(name, "holographic") {
        2
    } else if is(name, "polychrome") {
        3
    } else if is(name, "negative") {
        4
    } else {
        0
    }
}

fn sticker_name_to_id(name: &str) -> (r: u8)
    ensures
        r == sticker_id(name.spec_bytes()),
{
    if is(name, "eternal") {
        1
    } else if is(name, "perishable") {
        2
    } else if is(name, "rental") {
        3
    } else {
        0
    }
}

fn seal_name_to_id(name: &str) -> (r: u8)
    ensures
        r == seal_id(name.spec_bytes()),
{
    if is(name, "red") || is(name, "red seal") || is(name, "Red Seal") {
        1
    } else if is(name, "blue") || is(name, "blue seal") || is(name, "Blue Seal") {
        2
    } else if is(name, "gold") || is(name, "gold seal") || is(name, "Gold Seal") {
        3
    } else if is(name, "purple") || is(name, "purple seal") || is(name, "Purple Seal") {
        4
    } else {
        0
    }
}

// ---------------------------------------------------------------------------
// Clause → op
// ---------------------------------------------------------------------------

/// Whether `o` is the op that clause `c` compiles to.
pub open spec fn op_of(c: Clause, o: Op) -> bool
    decreases c,
{
    match c {
        Clause::AnteShopHasJoker { ante, slot, joker, edition, sticker } => o matches Op::HasJoker {
            ante: a,
            slot: s,
            joker_id: j,
            edition: e,
            sticker: t,
        } && a == ante && s == slot && j == hash16(str_bytes(joker)) && e == opt_edition(edition)
            && t == opt_sticker(sticker),
        Clause::AnteTagIs { ante, position, tag } => o matches Op::TagIs {
            ante: a,
            position: p,
            tag_id: t,
        } && a == ante && p == position && t == hash16(str_bytes(tag)),
        Clause::AnteBossIs { ante, boss } => o matches Op::BossIs { ante: a, boss_id: b } && a
            == ante && b == hash16(str_bytes(boss)),
        Clause::VoucherIs { ante, voucher } => o matches Op::VoucherIs { ante: a, voucher_id: v }
            && a == ante && v == hash16(str_bytes(voucher)),
        Clause::AntePackContains { ante, pack_index, card } => o matches Op::PackContains {
            ante: a,
            pack_index: p,
            card_id: id,
        } && a == ante && p == pack_index && id == hash16(str_bytes(card)),
        Clause::AnteAnyPackContains { ante, max_packs, card } => o matches Op::AnyPackContains {
            ante: a,
            max_packs: m,
            card_id: id,
        } && a == ante && m == max_packs && id == hash16(str_bytes(card)),
        Clause::AnteSoulIs { ante, max_packs, joker } => o matches Op::SoulIs {
            ante: a,
            max_packs: m,
            joker_id: j,
        } && a == ante && m == max_packs && j == hash16(str_bytes(joker)),
        Clause::AnteWraithIs { ante, max_packs, joker } => o matches Op::WraithIs {
            ante: a,
            max_packs: m,
            joker_id: j,
        } && a == ante && m == max_packs && j == hash16(str_bytes(joker)),
        Clause::AnteStandardCardIs { ante, max_packs, base, enhancement, edition, seal } => o matches Op::StandardCardIs {
            ante: a,
            max_packs: m,
            base_id: b,
            enhancement: en,
            edition: ed,
            seal: se,
        } && a == ante && m == max_packs && b == (if base@.len() == 0 {
            0u16
        } else {
            hash16(str_bytes(base))
        }) && en == opt_enhancement(enhancement) && ed == opt_edition(edition) && se == opt_seal(seal),
        Clause::AnyOf { clauses } => o matches Op::AnyOf { ops } && ops_of(clauses@, ops@),
    }
}

/// The op a clause compiles to: the same variant with the same ante, slot,
/// position and pack numbers; every name as its 16-bit digest, except that
/// an empty Standard-card base is 0 (any rank and suit) and an enhancement
/// is the digest of its short form; editions, stickers and seals as their
/// indices; an `AnyOf` as one op per clause.
pub proof fn lemma_compiled_fields(c: Clause, o: Op)
    requires
        op_of(c, o),
    ensures
        c matches Clause::AnteShopHasJoker { ante, slot, joker, edition, sticker } ==> (
        o matches Op::HasJoker { ante: a, slot: s, joker_id, edition: e, sticker: t } && a == ante
            && s == slot && joker_id == hash16(str_bytes(joker)) && (edition is None <==> e is None)
            && (edition matches Some(n) ==> e == Some(edition_id(str_bytes(n)))) && (sticker is None
            <==> t is None) && (sticker matches Some(n) ==> t == Some(sticker_id(str_bytes(n))))),
        c matches Clause::AnteTagIs { ante, position, tag } ==> (o matches Op::TagIs {
            ante: a,
            position: p,
            tag_id,
        } && a == ante && p == position && tag_id == hash16(str_bytes(tag))),
        c matches Clause::AnteBossIs { ante, boss } ==> (o matches Op::BossIs { ante: a, boss_id }
            && a == ante && boss_id == hash16(str_bytes(boss))),
        c matches Clause::VoucherIs { ante, voucher } ==> (o matches Op::VoucherIs {
            ante: a,
            voucher_id,
        } && a == ante && voucher_id == hash16(str_bytes(voucher))),
        c matches Clause::AntePackContains { ante, pack_index, card } ==> (
        o matches Op::PackContains { ante: a, pack_index: p, card_id } && a == ante && p
            == pack_index && card_id == hash16(str_bytes(card))),
        c matches Clause::AnteAnyPackContains { ante, max_packs, card } ==> (
        o matches Op::AnyPackContains { ante: a, max_packs: m, card_id } && a == ante && m
            == max_packs && card_id == hash16(str_bytes(card))),
        c matches Clause::AnteSoulIs { ante, max_packs, joker } ==> (o matches Op::SoulIs {
            ante: a,
            max_packs: m,
            joker_id,
        } && a == ante && m == max_packs && joker_id == hash16(str_bytes(joker))),
        c matches Clause::AnteWraithIs { ante, max_packs, joker } ==> (o matches Op::WraithIs {
            ante: a,
            max_packs: m,
            joker_id,
        } && a == ante && m == max_packs && joker_id == hash16(str_bytes(joker))),
        c matches Clause::AnteStandardCardIs { ante, max_packs, base, enhancement, edition, seal }
            ==> (o matches Op::StandardCardIs {
            ante: a,
            max_packs: m,
            base_id,
            enhancement: en,
            edition: ed,
            seal: se,
        } && a == ante && m == max_packs && (base@.len() > 0 ==> base_id == hash16(
            str_bytes(base),
        )) && (base@.len() == 0 ==> base_id == 0) && (enhancement is None <==> en is None) && (
        enhancement matches Some(n) ==> en == Some(hash16(enhancement_short(str_bytes(n)))))
            && (edition is None <==> ed is None) && (edition matches Some(n) ==> ed == Some(
            edition_id(str_bytes(n)),
        )) && (seal is None <==> se is None) && (seal matches Some(n) ==> se == Some(
            seal_id(str_bytes(n)),
        ))),
        c matches Clause::AnyOf { clauses } ==> (o matches Op::AnyOf { ops } && ops@.len()
            == clauses@.len()),
{
    if let Clause::AnyOf { clauses } = c {
        if let Op::AnyOf { ops } = o {
            if clauses@.len() > 0 {
                assert(ops_of(clauses@, ops@));
            }
        }
    }
}

/// Whether `os` are the ops that clauses `cs` compile to, one for one.
pub open spec fn ops_of(cs: Seq<Clause>, os: Seq<Op>) -> bool
    decreases cs,
{
    if cs.len() == 0 {
        os.len() == 0
    } else {
        os.len() == cs.len() && ops_of(cs.drop_last(), os.drop_last()) && op_of(
            cs.last(),
            os.last(),
        )
    }
}

fn opt_enhancement_id(s: &Option<String>) -> (r: Option<u16>)
    ensures
        r == opt_enhancement(*s),
{
    match s {
        Some(n) => Some(enhancement_name_to_id(n.as_str())),
        None => None,
    }
}

fn opt_edition_id(s: &Option<String>) -> (r: Option<u8>)
    ensures
        r == opt_edition(*s),
{
    match s {
        Some(n) => Some(edition_name_to_id(n.as_str())),
        None => None,
    }
}

fn opt_sticker_id(s: &Option<String>) -> (r: Option<u8>)
    ensures
        r == opt_sticker(*s),
{
    match s {
        Some(n) => Some(sticker_name_to_id(n.as_str())),
        None => None,
    }
}

fn opt_seal_id(s: &Option<String>) -> (r: Option<u8>)
    ensures
        r == opt_seal(*s),
{
    match s {
        Some(n) => Some(seal_name_to_id(n.as_str())),
        None => None,
    }
}

/// Lowers one clause to its op.
pub fn compile_clause(c: &Clause) -> (o: Op)
    ensures
        op_of(*c, o),
    decreases c,
{
    match c {
        Clause::AnteShopHasJoker { ante, slot, joker, edition, sticker } => Op::HasJoker {
            ante: *ante,
            slot: *slot,
            joker_id: joker_name_to_id(joker.as_str()),
            edition: opt_edition_id(edition),
            sticker: opt_sticker_id(sticker),
        },
        Clause::AnteTagIs { ante, position, tag } => Op::TagIs {
            ante: *ante,
            position: *position,
            tag_id: tag_name_to_id(tag.as_str()),
        },
        Clause::AnteBossIs { ante, boss } => Op::BossIs {
            ante: *ante,
            boss_id: boss_name_to_id(boss.as_str()),
        },
        Clause::VoucherIs { ante, voucher } => Op::VoucherIs {
            ante: *ante,
            voucher_id: voucher_name_to_id(voucher.as_str()),
        },
        Clause::AntePackContains { ante, pack_index, card } => Op::PackContains {
            ante: *ante,
            pack_index: *pack_index,
            card_id: card_name_to_id(card.as_str()),
        },
        Clause::AnteAnyPackContains { ante, max_packs, card } => Op::AnyPackContains {
            ante: *ante,
            max_packs: *max_packs,
            card_id: card_name_to_id(card.as_str()),
        },
        Clause::AnteSoulIs { ante, max_packs, joker } => Op::SoulIs {
            ante: *ante,
            max_packs: *max_packs,
            joker_id: joker_name_to_id(joker.as_str()),
        },
        Clause::AnteWraithIs { ante, max_packs, joker } => Op::WraithIs {
            ante: *ante,
            max_packs: *max_packs,
            joker_id: joker_name_to_id(joker.as_str()),
        },
        Clause::AnteStandardCardIs { ante, max_packs, base, enhancement, edition, seal } => {
            let base_id = if base.as_str().is_empty() {
                0
            } else {
                card_name_to_id(base.as_str())
            };
            Op::StandardCardIs {
                ante: *ante,
                max_packs: *max_packs,
                base_id,
                enhancement: opt_enhancement_id(enhancement),
                edition: opt_edition_id(edition),
                seal: opt_seal_id(seal),
            }
        },
        Clause::AnyOf { clauses } => {
            let mut ops: Vec<Op> = Vec::new();
            let mut i: usize = 0;
            while i < clauses.len()
                invariant
                    i <= clauses@.len(),
                    ops_of(clauses@.subrange(0, i as int), ops@),
                    *c == (Clause::AnyOf { clauses: *clauses }),
                decreases clauses@.len() - i,
            {
                proof {
                    assert(decreases_to!(*c => (*c)->clauses));
                    assert(decreases_to!(*clauses => clauses@));
                    assert(decreases_to!(clauses@ => clauses@[i as int]));
                    assert(decreases_to!(*c => clauses@[i as int]));
                }
                let o = compile_clause(&clauses[i]);
                let ghost prev = ops@;
                ops.push(o);
                proof {
                    let cs = clauses@.subrange(0, i + 1);
                    assert(cs.drop_last() =~= clauses@.subrange(0, i as int));
                    assert(ops@.drop_last() =~= prev);
                }
                i += 1;
            }
            assert(clauses@.subrange(0, clauses@.len() as int) =~= clauses@);
            Op::AnyOf { ops }
        },
    }
}


/// An enhancement name digests alike in its short form ("Glass") and in its
/// long form, the short form followed by " Card" ("Glass Card").
pub proof fn lemma_enhancement_forms_digest_alike(short: Seq<u8>)
    requires
        !ends_in_card(short),
    ensures
        enhancement_id(short + card_suffix()) == enhancement_id(short),
{
    let long = short + card_suffix();
    assert(long.subrange(long.len() - 5, long.len() as int) =~= card_suffix());
    assert(long.subrange(0, long.len() - 5) =~= short);
}

/// A Standard-card clause compiles to the same op whether it names its
/// enhancement in the short form or in the long form.
pub proof fn lemma_enhancement_forms_compile_alike(
    ante: u8,
    max_packs: u8,
    base: String,
    short: String,
    long: String,
    edition: Option<String>,
    seal: Option<String>,
    o1: Op,
    o2: Op,
)
    requires
        !ends_in_card(str_bytes(short)),
        str_bytes(long) == str_bytes(short) + card_suffix(),
        op_of(
            Clause::AnteStandardCardIs {
                ante,
                max_packs,
                base,
                enhancement: Some(short),
                edition,
                seal,
            },
            o1,
        ),
        op_of(
            Clause::AnteStandardCardIs {
                ante,
                max_packs,
                base,
                enhancement: Some(long),
                edition,
                seal,
            },
            o2,
        ),
    ensures
        o1 == o2,
{
    lemma_enhancement_forms_digest_alike(str_bytes(short));
}

// ---------------------------------------------------------------------------
// Selectivity ordering
// ---------------------------------------------------------------------------

/// Prior estimate of how often an op holds for a seed, as the binary64
/// double the prior evaluates to; lower means rarer. Each leaf prior is the
/// double nearest its decimal value; an `AnyOf` is the least estimate of its
/// children (starting from 1.0) times its number of children (at least 1),
/// both in binary64.
pub open spec fn estimate(o: Op) -> (nat, int)
    decreases o,
{
    match o {
        Op::HasJoker { edition: Some(_), .. } => (5534023222112865, -64),  // 0.0003
        Op::HasJoker { sticker: Some(_), .. } => (5764607523034235, -59),  // 0.01
        Op::WraithIs { .. } => (5534023222112865, -63),  // 0.0006
        Op::SoulIs { .. } => (8070450532247929, -60),  // 0.007
        Op::HasJoker { .. } => (8646911284551352, -58),  // 0.03
        Op::VoucherIs { .. } => (8646911284551352, -58),  // 0.03
        Op::StandardCardIs { edition: Some(_), .. } => (5534023222112865, -64),  // 0.0003
        Op::StandardCardIs { seal: Some(_), .. } => (5764607523034235, -57),  // 0.04
        Op::StandardCardIs { .. } => (5044031582654956, -56),  // 0.07
        Op::TagIs { .. } => (5764607523034235, -57),  // 0.04
        Op::BossIs { .. } => (8646911284551352, -57),  // 0.06
        Op::PackContains { .. } => (5764607523034235, -56),  // 0.08
        Op::AnyPackContains { .. } => (7205759403792794, -56),  // 0.10
        Op::AnyOf { ops } => double_mul(
            min_estimate(ops@),
            if ops@.len() == 0 {
                double_one()
            } else {
                round_double(ops@.len())
            },
        ),
    }
}

/// The least estimate among `s`, starting from 1.0 (`fold(1.0, f64::min)`).
pub open spec fn min_estimate(s: Seq<Op>) -> (nat, int)
    decreases s,
{
    if s.len() == 0 {
        double_one()
    } else {
        double_min(min_estimate(s.drop_last()), estimate(s.last()))
    }
}

/// A double's place in value order as one number: exponent first, then
/// significand.
pub open spec fn double_key(d: (nat, int)) -> nat {
    ((d.1 + 128) * 9007199254740992 + d.0) as nat
}

/// The op's estimate as one number, ordered as the estimates are
/// (`lemma_selectivity_orders_estimates`).
pub open spec fn selectivity(o: Op) -> nat {
    double_key(estimate(o))
}

/// Every estimate is a double in normal form, at least 2^-18.
pub proof fn lemma_estimate_bounds(o: Op)
    ensures
        is_double(estimate(o)),
        -70 <= estimate(o).1,
    decreases o,
{
    lemma_p2_values();
    match o {
        Op::AnyOf { ops } => {
            assert(decreases_to!(o => ops));
            assert(decreases_to!(ops => ops@));
            lemma_min_estimate_bounds(ops@);
            let m = min_estimate(ops@);
            let l = if ops@.len() == 0 {
                double_one()
            } else {
                round_double(ops@.len())
            };
            if ops@.len() > 0 {
                lemma_round_double(ops@.len());
                lemma_bit_len_bounds(ops@.len());
            }
            lemma_product_range(m, l);
        },
        _ => {},
    }
}

/// The least estimate is a double in normal form, at least 2^-18 and no
/// more than 1.0.
pub proof fn lemma_min_estimate_bounds(s: Seq<Op>)
    ensures
        is_double(min_estimate(s)),
        -70 <= min_estimate(s).1 <= -52,
        !double_lt(double_one(), min_estimate(s)),
    decreases s,
{
    lemma_p2_values();
    if s.len() > 0 {
        assert(decreases_to!(s => s.drop_last()));
        assert(decreases_to!(s => s[s.len() - 1]));
        lemma_min_estimate_bounds(s.drop_last());
        lemma_estimate_bounds(s.last());
    }
}

/// Whether the double `d` below 1 is the double nearest `p / q`: its value
/// `d.0 * 2^d.1` lies within half a unit of its last place of `p / q`.
pub open spec fn nearest_to(d: (nat, int), p: nat, q: nat) -> bool {
    &&& d.1 < 0
    &&& -(q as int) <= 2 * (d.0 * q - p * p2((-d.1) as nat)) <= q
}

/// Each leaf prior is the double nearest its decimal value: an edition
/// joker or an edition Standard card 0.0003, a Wraith 0.0006, a Soul 0.007,
/// a sticker joker 0.01, a plain joker or a voucher 0.03, a sealed Standard
/// card or a tag 0.04, a boss 0.06, a plain Standard card 0.07, one pack
/// 0.08, any of several packs 0.1.
pub proof fn lemma_leaf_priors(o: Op)
    ensures
        o matches Op::HasJoker { edition: Some(_), .. } ==> nearest_to(estimate(o), 3, 10000),
        o matches Op::HasJoker { edition: None, sticker: Some(_), .. } ==> nearest_to(
            estimate(o),
            1,
            100,
        ),
        o matches Op::HasJoker { edition: None, sticker: None, .. } ==> nearest_to(
            estimate(o),
            3,
            100,
        ),
        o is WraithIs ==> nearest_to(estimate(o), 6, 10000),
        o is SoulIs ==> nearest_to(estimate(o), 7, 1000),
        o is VoucherIs ==> nearest_to(estimate(o), 3, 100),
        o matches Op::StandardCardIs { edition: Some(_), .. } ==> nearest_to(
            estimate(o),
            3,
            10000,
        ),
        o matches Op::StandardCardIs { edition: None, seal: Some(_), .. } ==> nearest_to(
            estimate(o),
            4,
            100,
        ),
        o matches Op::StandardCardIs { edition: None, seal: None, .. } ==> nearest_to(
            estimate(o),
            7,
            100,
        ),
        o is TagIs ==> nearest_to(estimate(o), 4, 100),
        o is BossIs ==> nearest_to(estimate(o), 6, 100),
        o is PackContains ==> nearest_to(estimate(o), 8, 100),
        o is AnyPackContains ==> nearest_to(estimate(o), 10, 100),
{
    lemma_p2_to_64();
}

/// Selectivity orders ops exactly as their binary64 estimates compare.
pub proof fn lemma_selectivity_orders_estimates(a: Op, b: Op)
    ensures
        selectivity(a) < selectivity(b) <==> double_lt(estimate(a), estimate(b)),
        selectivity(a) == selectivity(b) <==> estimate(a) == estimate(b),
{
    lemma_estimate_bounds(a);
    lemma_estimate_bounds(b);
    lemma_p2_values();
}

/// The ops of `s` whose selectivity is `k`, in order.
pub open spec fn with_selectivity(s: Seq<Op>, k: nat) -> Seq<Op> {
    s.filter(|o: Op| selectivity(o) == k)
}

/// Selectivities never decrease along `s`.
pub open spec fn sorted_by_selectivity(s: Seq<Op>) -> bool {
    forall|i: int, j: int| 0 <= i < j < s.len() ==> selectivity(s[i]) <= selectivity(s[j])
}

/// `output` is `input` ordered by selectivity, keeping input order among
/// equal selectivities.
pub open spec fn selectivity_order(input: Seq<Op>, output: Seq<Op>) -> bool {
    &&& sorted_by_selectivity(output)
    &&& forall|k: nat| #[trigger] with_selectivity(input, k) == with_selectivity(output, k)
}

/// Rough analytical priors per clause family, as binary64 doubles
/// (significand, exponent). Lower = rarer = run first.
fn estimated_selectivity(op: &Op) -> (r: (u64, i64))
    ensures
        (r.0 as nat, r.1 as int) == estimate(*op),
        is_double((r.0 as nat, r.1 as int)),
        -70 <= r.1 <= 20,
    decreases op,
{
    proof {
        lemma_p2_values();
    }
    match op {
        Op::HasJoker { edition: Some(_), .. } => (5534023222112865, -64),
        Op::HasJoker { sticker: Some(_), .. } => (5764607523034235, -59),
        Op::WraithIs { .. } => (5534023222112865, -63),
        Op::SoulIs { .. } => (8070450532247929, -60),
        Op::HasJoker { .. } => (8646911284551352, -58),
        Op::VoucherIs { .. } => (8646911284551352, -58),
        Op::StandardCardIs { edition: Some(_), .. } => (5534023222112865, -64),
        Op::StandardCardIs { seal: Some(_), .. } => (5764607523034235, -57),
        Op::StandardCardIs { .. } => (5044031582654956, -56),
        Op::TagIs { .. } => (5764607523034235, -57),
        Op::BossIs { .. } => (8646911284551352, -57),
        Op::PackContains { .. } => (5764607523034235, -56),
        Op::AnyPackContains { .. } => (7205759403792794, -56),
        Op::AnyOf { ops } => {
            let mut m: (u64, i64) = (4503599627370496, -52);
            let mut i: usize = 0;
            while i < ops.len()
                invariant
                    i <= ops@.len(),
                    (m.0 as nat, m.1 as int) == min_estimate(ops@.subrange(0, i as int)),
                    is_double((m.0 as nat, m.1 as int)),
                    -70 <= m.1 <= -52,
                    p2(52) == 4503599627370496,
                    *op == (Op::AnyOf { ops: *ops }),
                decreases ops@.len() - i,
            {
                proof {
                    assert(decreases_to!(*op => (*op)->ops));
                    assert(decreases_to!(*ops => ops@));
                    assert(decreases_to!(ops@ => ops@[i as int]));
                    assert(ops@.subrange(0, i + 1).drop_last() =~= ops@.subrange(0, i as int));
                }
                let x = estimated_selectivity(&ops[i]);
                if x.1 < m.1 || (x.1 == m.1 && x.0 < m.0) {
                    m = x;
                }
                i += 1;
            }
            assert(ops@.subrange(0, ops@.len() as int) =~= ops@);
            proof {
                lemma_p2_adds(53, 53);
                if ops@.len() > 0 {
                    lemma_round_double(ops@.len());
                    lemma_bit_len_range(ops@.len(), 0, 64);
                }
            }
            let l: (u64, i64) = if ops.len() == 0 {
                (4503599627370496, -52)
            } else {
                round_to_double(ops.len() as u128)
            };
            proof {
                lemma_product_range((m.0 as nat, m.1 as int), (l.0 as nat, l.1 as int));
            }
            let p = round_to_double(m.0 as u128 * l.0 as u128);
            (p.0, m.1 + l.1 + p.1)
        },
    }
}

/// The selectivity of an op, computed.
fn selectivity_key(op: &Op) -> (r: u128)
    ensures
        r == selectivity(*op),
{
    let d = estimated_selectivity(op);
    proof {
        lemma_p2_values();
    }
    ((d.1 + 128) as u128) * 9007199254740992 + d.0 as u128
}

/// Inserting `x` where every op before is no more selective and every op
/// after is strictly more selective keeps the order and adds `x` to its group.
proof fn lemma_insert_in_order(s: Seq<Op>, p: int, x: Op)
    requires
        sorted_by_selectivity(s),
        0 <= p <= s.len(),
        forall|j: int| 0 <= j < p ==> selectivity(#[trigger] s[j]) <= selectivity(x),
        forall|j: int| p <= j < s.len() ==> selectivity(#[trigger] s[j]) > selectivity(x),
    ensures
        sorted_by_selectivity(s.insert(p, x)),
        forall|k: nat|
            #[trigger] with_selectivity(s.insert(p, x), k) == if selectivity(x) == k {
                with_selectivity(s, k).push(x)
            } else {
                with_selectivity(s, k)
            },
{
    let t = s.insert(p, x);
    s.insert_ensures(p, x);
    assert forall|i: int, j: int| 0 <= i < j < t.len() implies selectivity(t[i]) <= selectivity(
        t[j],
    ) by {
        if j < p {
            assert(t[i] == s[i] && t[j] == s[j]);
        } else if j == p {
            assert(t[i] == s[i]);
        } else if i < p {
            assert(t[i] == s[i] && t[j] == s[j - 1]);
        } else if i == p {
            assert(t[j] == s[j - 1]);
        } else {
            assert(t[i] == s[i - 1] && t[j] == s[j - 1]);
        }
    }
    let a = s.subrange(0, p);
    let b = s.subrange(p, s.len() as int);
    assert(s =~= a + b);
    assert(t =~= a + seq![x] + b);
    assert forall|k: nat| #[trigger] with_selectivity(t, k) == if selectivity(x) == k {
        with_selectivity(s, k).push(x)
    } else {
        with_selectivity(s, k)
    } by {
        let pred = |o: Op| selectivity(o) == k;
        Seq::filter_distributes_over_add(a + seq![x], b, pred);
        Seq::filter_distributes_over_add(a, seq![x], pred);
        Seq::filter_distributes_over_add(a, b, pred);
        a.lemma_filter_push(x, pred);
        assert(a + seq![x] =~= a.push(x));
        Seq::<Op>::empty().lemma_filter_push(x, pred);
        assert(Seq::<Op>::empty().push(x) =~= seq![x]);
        reveal(Seq::filter);
        assert(Seq::<Op>::empty().filter(pred) =~= Seq::<Op>::empty());
        if selectivity(x) == k {
            assert(b.all(|o: Op| !pred(o))) by {
                assert forall|j: int| 0 <= j < b.len() implies !pred(#[trigger] b[j]) by {
                    assert(b[j] == s[p + j]);
                }
            }
            b.lemma_all_neg_filter_empty(pred);
            assert(b.filter(pred) =~= Seq::<Op>::empty());
            assert(a.filter(pred).push(x) + b.filter(pred) =~= (a.filter(pred) + b.filter(
                pred,
            )).push(x));
        }
    }
}

/// The last op of a sequence ends the group of its selectivity.
proof fn lemma_group_of_last(b: Seq<Op>)
    requires
        b.len() > 0,
    ensures
        with_selectivity(b, selectivity(b.last())) == with_selectivity(
            b.drop_last(),
            selectivity(b.last()),
        ).push(b.last()),
        forall|k: nat|
            k != selectivity(b.last()) ==> #[trigger] with_selectivity(b, k) == with_selectivity(
                b.drop_last(),
                k,
            ),
{
    assert(b.drop_last().push(b.last()) =~= b);
    let m = selectivity(b.last());
    b.drop_last().lemma_filter_push(b.last(), |o: Op| selectivity(o) == m);
    assert forall|k: nat| k != m implies #[trigger] with_selectivity(b, k) == with_selectivity(
        b.drop_last(),
        k,
    ) by {
        b.drop_last().lemma_filter_push(b.last(), |o: Op| selectivity(o) == k);
    }
}

/// A sequence with an op of selectivity `k` has a non-empty group `k`.
proof fn lemma_group_nonempty(b: Seq<Op>, i: int)
    requires
        0 <= i < b.len(),
    ensures
        with_selectivity(b, selectivity(b[i])).len() > 0,
{
    let k = selectivity(b[i]);
    let pred = |o: Op| selectivity(o) == k;
    b.lemma_filter_contains(pred, i);
}

/// A sequence whose group `k` is non-empty holds an op of selectivity `k`.
proof fn lemma_group_witness(b: Seq<Op>, k: nat) -> (i: int)
    requires
        with_selectivity(b, k).len() > 0,
    ensures
        0 <= i < b.len(),
        selectivity(b[i]) == k,
{
    let pred = |o: Op| selectivity(o) == k;
    if forall|j: int| 0 <= j < b.len() ==> selectivity(#[trigger] b[j]) != k {
        assert(b.all(|o: Op| !pred(o))) by {
            assert forall|j: int| 0 <= j < b.len() implies !pred(#[trigger] b[j]) by {}
        }
        b.lemma_all_neg_filter_empty(pred);
        assert(false);
        0
    } else {
        choose|j: int| 0 <= j < b.len() && selectivity(#[trigger] b[j]) == k
    }
}

/// Two orderings by selectivity of the same ops are the same sequence: the
/// order `compile` promises leaves no choice.
pub proof fn lemma_selectivity_order_unique(a: Seq<Op>, b1: Seq<Op>, b2: Seq<Op>)
    requires
        selectivity_order(a, b1),
        selectivity_order(a, b2),
    ensures
        b1 == b2,
{
    assert(forall|k: nat| #[trigger] with_selectivity(b1, k) == with_selectivity(b2, k)) by {
        assert forall|k: nat| #[trigger] with_selectivity(b1, k) == with_selectivity(b2, k) by {
            assert(with_selectivity(a, k) == with_selectivity(b1, k));
            assert(with_selectivity(a, k) == with_selectivity(b2, k));
        }
    }
    lemma_same_groups_sorted_equal(b1, b2);
}

proof fn lemma_same_groups_sorted_equal(b1: Seq<Op>, b2: Seq<Op>)
    requires
        sorted_by_selectivity(b1),
        sorted_by_selectivity(b2),
        forall|k: nat| #[trigger] with_selectivity(b1, k) == with_selectivity(b2, k),
    ensures
        b1 == b2,
    decreases b1.len() + b2.len(),
{
    if b1.len() == 0 && b2.len() == 0 {
        assert(b1 =~= b2);
    } else if b1.len() == 0 {
        lemma_group_nonempty(b2, b2.len() - 1);
        let k = selectivity(b2[b2.len() - 1]);
        assert(with_selectivity(b1, k) == with_selectivity(b2, k));
        reveal(Seq::filter);
        assert(with_selectivity(b1, k).len() == 0);
    } else if b2.len() == 0 {
        lemma_group_nonempty(b1, b1.len() - 1);
        let k = selectivity(b1[b1.len() - 1]);
        assert(with_selectivity(b1, k) == with_selectivity(b2, k));
        reveal(Seq::filter);
        assert(with_selectivity(b2, k).len() == 0);
    } else {
        let m1 = selectivity(b1.last());
        let m2 = selectivity(b2.last());
        lemma_group_nonempty(b1, b1.len() - 1);
        lemma_group_nonempty(b2, b2.len() - 1);
        assert(with_selectivity(b1, m1) == with_selectivity(b2, m1));
        assert(with_selectivity(b1, m2) == with_selectivity(b2, m2));
        let i2 = lemma_group_witness(b2, m1);
        let i1 = lemma_group_witness(b1, m2);
        if i2 < b2.len() - 1 {
            assert(selectivity(b2[i2]) <= m2);
        }
        if i1 < b1.len() - 1 {
            assert(selectivity(b1[i1]) <= m1);
        }
        assert(m1 == m2);
        lemma_group_of_last(b1);
        lemma_group_of_last(b2);
        assert(with_selectivity(b1, m1).last() == b1.last());
        assert(with_selectivity(b2, m1).last() == b2.last());
        let d1 = b1.drop_last();
        let d2 = b2.drop_last();
        assert forall|k: nat| #[trigger] with_selectivity(d1, k) == with_selectivity(d2, k) by {
            if k == m1 {
                assert(with_selectivity(d1, k) =~= with_selectivity(b1, k).drop_last());
                assert(with_selectivity(d2, k) =~= with_selectivity(b2, k).drop_last());
            } else {
                assert(with_selectivity(b1, k) == with_selectivity(b2, k));
            }
        }
        assert(sorted_by_selectivity(d1)) by {
            assert forall|i: int, j: int| 0 <= i < j < d1.len() implies selectivity(d1[i])
                <= selectivity(d1[j]) by {
                assert(d1[i] == b1[i] && d1[j] == b1[j]);
            }
        }
        assert(sorted_by_selectivity(d2)) by {
            assert forall|i: int, j: int| 0 <= i < j < d2.len() implies selectivity(d2[i])
                <= selectivity(d2[j]) by {
                assert(d2[i] == b2[i] && d2[j] == b2[j]);
            }
        }
        lemma_same_groups_sorted_equal(d1, d2);
        assert(b1 =~= d1.push(b1.last()));
        assert(b2 =~= d2.push(b2.last()));
    }
}

impl Filter {
    /// Lowers every clause to its op and orders the ops by their binary64
    /// estimates, rarest first, keeping clause order among equal estimates.
    pub fn compile(&self) -> (r: Compiled)
        ensures
            r.total_clauses == self.clauses@.len() as u8,
            r.ops@.len() == self.clauses@.len(),
            exists|pre: Seq<Op>| ops_of(self.clauses@, pre) && selectivity_order(pre, r.ops@),
    {
        let mut ops: Vec<Op> = Vec::new();
        let mut keys: Vec<u128> = Vec::new();
        let ghost mut pre: Seq<Op> = Seq::empty();
        let n = self.clauses.len();
        let mut i: usize = 0;
        while i < n
            invariant
                n == self.clauses@.len(),
                i <= n,
                ops_of(self.clauses@.subrange(0, i as int), pre),
                pre.len() == i,
                ops@.len() == i,
                keys@.len() == ops@.len(),
                forall|j: int| 0 <= j < keys@.len() ==> #[trigger] keys@[j] == selectivity(ops@[j]),
                selectivity_order(pre, ops@),
            decreases n - i,
        {
            let op = compile_clause(&self.clauses[i]);
            let k = selectivity_key(&op);
            let mut p: usize = 0;
            while p < keys.len() && keys[p] <= k
                invariant
                    p <= keys@.len(),
                    forall|j: int| 0 <= j < p ==> #[trigger] keys@[j] <= k,
                decreases keys@.len() - p,
            {
                p += 1;
            }
            proof {
                assert forall|j: int| p <= j < ops@.len() implies selectivity(
                    #[trigger] ops@[j],
                ) > selectivity(op) by {
                    assert(keys@[p as int] > k);
                    assert(selectivity(ops@[p as int]) <= selectivity(ops@[j]));
                }
                assert forall|j: int| 0 <= j < p implies selectivity(#[trigger] ops@[j])
                    <= selectivity(op) by {
                    assert(keys@[j] <= k);
                }
                lemma_insert_in_order(ops@, p as int, op);
                let cs = self.clauses@.subrange(0, i + 1);
                assert(cs.drop_last() =~= self.clauses@.subrange(0, i as int));
                assert(pre.push(op).drop_last() =~= pre);
                assert forall|kk: nat| #[trigger] with_selectivity(pre.push(op), kk)
                    == if selectivity(op) == kk {
                    with_selectivity(pre, kk).push(op)
                } else {
                    with_selectivity(pre, kk)
                } by {
                    pre.lemma_filter_push(op, |o: Op| selectivity(o) == kk);
                }
            }
            let ghost old_ops = ops@;
            let ghost old_keys = keys@;
            let ghost g = op;
            ops.insert(p, op);
            keys.insert(p, k);
            proof {
                pre = pre.push(g);
                assert(ops@ =~= old_ops.insert(p as int, g));
                assert forall|j: int| 0 <= j < keys@.len() implies #[trigger] keys@[j]
                    == selectivity(ops@[j]) by {
                    if j < p {
                        assert(keys@[j] == old_keys[j] && ops@[j] == old_ops[j]);
                    } else if j > p {
                        assert(keys@[j] == old_keys[j - 1] && ops@[j] == old_ops[j - 1]);
                    }
                }
                assert forall|kk: nat| #[trigger] with_selectivity(pre, kk) == with_selectivity(
                    ops@,
                    kk,
                ) by {
                    assert(with_selectivity(pre.drop_last(), kk) == with_selectivity(old_ops, kk));
                }
            }
            i += 1;
        }
        assert(self.clauses@.subrange(0, n as int) =~= self.clauses@);
        Compiled { ops, total_clauses: n as u8 }
    }
}

} // verus!
