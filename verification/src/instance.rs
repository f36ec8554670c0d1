//! Node keys and the per-run node cache.
//!
//! Every draw the game performs is keyed by `(type, source, ante, resample)`.
//! The key renders to the string that is hashed together with the seed; the
//! cache finds the node a key was given, or hands out a slot for a new one.

use vstd::prelude::*;
use vstd::string::StringSliceAdditionalSpecFns;

use crate::text::{bytes_as_chars, push_char};

verus! {

/// All RNG sources the game uses (which "key" prefix is hashed).
#[derive(Clone, Copy, Debug, PartialEq, Eq, Structural)]
pub enum RandomType {
    JokerCommon,
    JokerUncommon,
    JokerRare,
    JokerLegendary,
    JokerRarity,
    JokerEdition,
    Misprint,
    StandardHasEnhancement,
    Enhancement,
    Card,
    StandardEdition,
    StandardHasSeal,
    StandardSeal,
    ShopPack,
    Tarot,
    Spectral,
    Tags,
    ShuffleNewRound,
    CardType,
    Planet,
    LuckyMult,
    LuckyMoney,
    Sigil,
    Ouija,
    WheelOfFortune,
    GrosMichel,
    Cavendish,
    Voucher,
    VoucherTag,
    OrbitalTag,
    Soul,
    Erratic,
    Eternal,
    Perishable,
    Rental,
    EternalPerishable,
    RentalPack,
    EternalPerishablePack,
    Boss,
}

/// The key prefix hashed for a random type.
pub open spec fn type_key(t: RandomType) -> Seq<char> {
    match t {
        RandomType::JokerCommon => "Joker1"@,
        RandomType::JokerUncommon => "Joker2"@,
        RandomType::JokerRare => "Joker3"@,
        RandomType::JokerLegendary => "Joker4"@,
        RandomType::JokerRarity => "rarity"@,
        RandomType::JokerEdition => "edi"@,
        RandomType::Misprint => "misprint"@,
        RandomType::StandardHasEnhancement => "stdset"@,
        RandomType::Enhancement => "Enhanced"@,
        RandomType::Card => "front"@,
        RandomType::StandardEdition => "standard_edition"@,
        RandomType::StandardHasSeal => "stdseal"@,
        RandomType::StandardSeal => "stdsealtype"@,
        RandomType::ShopPack => "shop_pack"@,
        RandomType::Tarot => "Tarot"@,
        RandomType::Spectral => "Spectral"@,
        RandomType::Tags => "Tag"@,
        RandomType::ShuffleNewRound => "nr"@,
        RandomType::CardType => "cdt"@,
        RandomType::Planet => "Planet"@,
        RandomType::LuckyMult => "lucky_mult"@,
        RandomType::LuckyMoney => "lucky_money"@,
        RandomType::Sigil => "sigil"@,
        RandomType::Ouija => "ouija"@,
        RandomType::WheelOfFortune => "wheel_of_fortune"@,
        RandomType::GrosMichel => "gros_michel"@,
        RandomType::Cavendish => "cavendish"@,
        RandomType::Voucher => "Voucher"@,
        RandomType::VoucherTag => "Voucher_fromtag"@,
        RandomType::OrbitalTag => "orbital"@,
        RandomType::Soul => "soul_"@,
        RandomType::Erratic => "erratic"@,
        RandomType::Eternal => "stake_shop_joker_eternal"@,
        RandomType::Perishable => "ssjp"@,
        RandomType::Rental => "ssjr"@,
        RandomType::EternalPerishable => "etperpoll"@,
        RandomType::RentalPack => "packssjr"@,
        RandomType::EternalPerishablePack => "packetper"@,
        RandomType::Boss => "boss"@,
    }
}

impl RandomType {
    /// The key prefix hashed for this random type.
    pub fn key(self) -> (r: &'static str)
        ensures
            r@ == type_key(self),
    {
        match self {
            Self::JokerCommon => "Joker1",
            Self::JokerUncommon => "Joker2",
            Self::JokerRare => "Joker3",
            Self::JokerLegendary => "Joker4",
            Self::JokerRarity => "rarity",
            Self::JokerEdition => "edi",
            Self::Misprint => "misprint",
            Self::StandardHasEnhancement => "stdset",
            Self::Enhancement => "Enhanced",
            Self::Card => "front",
            Self::StandardEdition => "standard_edition",
            Self::StandardHasSeal => "stdseal",
            Self::StandardSeal => "stdsealtype",
            Self::ShopPack => "shop_pack",
            Self::Tarot => "Tarot",
            Self::Spectral => "Spectral",
            Self::Tags => "Tag",
            Self::ShuffleNewRound => "nr",
            Self::CardType => "cdt",
            Self::Planet => "Planet",
            Self::LuckyMult => "lucky_mult",
            Self::LuckyMoney => "lucky_money",
            Self::Sigil => "sigil",
            Self::Ouija => "ouija",
            Self::WheelOfFortune => "wheel_of_fortune",
            Self::GrosMichel => "gros_michel",
            Self::Cavendish => "cavendish",
            Self::Voucher => "Voucher",
            Self::VoucherTag => "Voucher_fromtag",
            Self::OrbitalTag => "orbital",
            Self::Soul => "soul_",
            Self::Erratic => "erratic",
            Self::Eternal => "stake_shop_joker_eternal",
            Self::Perishable => "ssjp",
            Self::Rental => "ssjr",
            Self::EternalPerishable => "etperpoll",
            Self::RentalPack => "packssjr",
            Self::EternalPerishablePack => "packetper",
            Self::Boss => "boss",
        }
    }
}

/// Where a draw comes from (the second part of a node key).
#[derive(Clone, Copy, Debug, PartialEq, Eq, Structural)]
pub enum RandomSource {
    Shop,
    Emperor,
    HighPriestess,
    Judgement,
    Wraith,
    Arcana,
    Celestial,
    Spectral,
    Standard,
    Buffoon,
    Vagabond,
    Superposition,
    EightBall,
    Seance,
    SixthSense,
    TopUp,
    RareTag,
    UncommonTag,
    BlueSeal,
    PurpleSeal,
    Soul,
    RiffRaff,
    Cartomancer,
    Null,
}

/// The key part hashed for a source. Purple Seal shares Eight Ball's key.
pub open spec fn source_key(s: RandomSource) -> Seq<char> {
    match s {
        RandomSource::Shop => "sho"@,
        RandomSource::Emperor => "emp"@,
        RandomSource::HighPriestess => "pri"@,
        RandomSource::Judgement => "jud"@,
        RandomSource::Wraith => "wra"@,
        RandomSource::Arcana => "ar1"@,
        RandomSource::Celestial => "pl1"@,
        RandomSource::Spectral => "spe"@,
        RandomSource::Standard => "sta"@,
        RandomSource::Buffoon => "buf"@,
        RandomSource::Vagabond => "vag"@,
        RandomSource::Superposition => "sup"@,
        RandomSource::EightBall => "8ba"@,
        RandomSource::Seance => "sea"@,
        RandomSource::SixthSense => "sixth"@,
        RandomSource::TopUp => "top"@,
        RandomSource::RareTag => "rta"@,
        RandomSource::UncommonTag => "uta"@,
        RandomSource::BlueSeal => "blusl"@,
        RandomSource::PurpleSeal => "8ba"@,
        RandomSource::Soul => "sou"@,
        RandomSource::RiffRaff => "rif"@,
        RandomSource::Cartomancer => "car"@,
        RandomSource::Null => ""@,
    }
}

impl RandomSource {
    /// The key part hashed for this source.
    pub fn key(self) -> (r: &'static str)
        ensures
            r@ == source_key(self),
    {
        match self {
            Self::Shop => "sho",
            Self::Emperor => "emp",
            Self::HighPriestess => "pri",
            Self::Judgement => "jud",
            Self::Wraith => "wra",
            Self::Arcana => "ar1",
            Self::Celestial => "pl1",
            Self::Spectral => "spe",
            Self::Standard => "sta",
            Self::Buffoon => "buf",
            Self::Vagabond => "vag",
            Self::Superposition => "sup",
            Self::EightBall => "8ba",
            Self::Seance => "sea",
            Self::SixthSense => "sixth",
            Self::TopUp => "top",
            Self::RareTag => "rta",
            Self::UncommonTag => "uta",
            Self::BlueSeal => "blusl",
            Self::PurpleSeal => "8ba",
            Self::Soul => "sou",
            Self::RiffRaff => "rif",
            Self::Cartomancer => "car",
            Self::Null => "",
        }
    }
}

/// The character of decimal digit `d`.
pub open spec fn digit_char(d: nat) -> char {
    ((48 + d) as u8) as char
}

/// The decimal digits of `n`, most significant first, no leading zeros.
pub open spec fn nat_decimal(n: nat) -> Seq<char>
    decreases n,
{
    if n < 10 {
        seq![digit_char(n)]
    } else {
        nat_decimal(n / 10).push(digit_char(n % 10))
    }
}

/// The decimal rendering of `v`, with a leading `-` when negative.
pub open spec fn decimal(v: int) -> Seq<char> {
    if v < 0 {
        seq!['-'] + nat_decimal((-v) as nat)
    } else {
        nat_decimal(v as nat)
    }
}

/// Appends the decimal digits of `n`.
fn push_nat_decimal(s: &mut String, n: u64)
    ensures
        final(s)@ == old(s)@ + nat_decimal(n as nat),
    decreases n,
{
    if n >= 10 {
        push_nat_decimal(s, n / 10);
    }
    let d = (n % 10) as u8;
    push_char(s, (48 + d) as char);
    assert(final(s)@ =~= old(s)@ + nat_decimal(n as nat));
}

/// Appends the decimal rendering of `v`.
fn push_decimal(s: &mut String, v: i64)
    ensures
        final(s)@ == old(s)@ + decimal(v as int),
{
    if v < 0 {
        push_char(s, '-');
        let m: u64 = if v == i64::MIN {
            9223372036854775808u64
        } else {
            (-v) as u64
        };
        push_nat_decimal(s, m);
        assert(final(s)@ =~= old(s)@ + decimal(v as int));
    } else {
        push_nat_decimal(s, v as u64);
    }
}

/// Composable node descriptor. The cache keys nodes by this tuple.
#[derive(Clone, Copy, Debug, PartialEq, Eq, Structural)]
pub struct NodeKey {
    pub kind: RandomType,
    pub source: Option<RandomSource>,
    pub ante: Option<i32>,
    pub resample: Option<u32>,
}

/// The string a node key renders to: type key, source key, ante, and
/// `_resample` with the resample number plus one when it is positive.
pub open spec fn spec_render(k: NodeKey) -> Seq<char> {
    type_key(k.kind) + match k.source {
        Some(s) => source_key(s),
        None => Seq::<char>::empty(),
    } + match k.ante {
        Some(a) => decimal(a as int),
        None => Seq::<char>::empty(),
    } + match k.resample {
        Some(r) => if r > 0 {
            "_resample"@ + decimal(r + 1)
        } else {
            Seq::<char>::empty()
        },
        None => Seq::<char>::empty(),
    }
}

impl NodeKey {
    /// A key with the type alone.
    pub fn simple(kind: RandomType) -> (r: Self)
        ensures
            r == (NodeKey { kind, source: None, ante: None, resample: None }),
    {
        Self { kind, source: None, ante: None, resample: None }
    }

    /// A key with type, source and ante.
    pub fn with_ante(kind: RandomType, source: RandomSource, ante: i32) -> (r: Self)
        ensures
            r == (NodeKey { kind, source: Some(source), ante: Some(ante), resample: None }),
    {
        Self { kind, source: Some(source), ante: Some(ante), resample: None }
    }

    /// A key with type, source, ante and resample number.
    pub fn with_resample(kind: RandomType, source: RandomSource, ante: i32, n: u32) -> (r: Self)
        ensures
            r == (NodeKey { kind, source: Some(source), ante: Some(ante), resample: Some(n) }),
    {
        Self { kind, source: Some(source), ante: Some(ante), resample: Some(n) }
    }

    /// Build the hashed-string form: type_str + source_str + ante_str + resample_str.
    pub fn render(&self) -> (r: String)
        requires
            self.resample != Some(u32::MAX),
        ensures
            r@ == spec_render(*self),
    {
        let mut out = String::new();
        out.append(self.kind.key());
        if let Some(s) = self.source {
            out.append(s.key());
        }
        if let Some(a) = self.ante {
            push_decimal(&mut out, a as i64);
        }
        if let Some(r) = self.resample {
            if r > 0 {
                out.append("_resample");
                push_decimal(&mut out, (r + 1) as i64);
            }
        }
        assert(out@ =~= spec_render(*self));
        out
    }
}

/// Number of nodes a run's cache holds.
pub const CACHE_SIZE: usize = 64;

/// The first slot below `used` that holds `key`.
pub open spec fn first_slot(slots: Seq<Option<NodeKey>>, used: nat, key: NodeKey) -> Option<nat>
    decreases used,
{
    if used == 0 {
        None
    } else {
        match first_slot(slots, (used - 1) as nat, key) {
            Some(i) => Some(i),
            None => if used - 1 < slots.len() && slots[used - 1] == Some(key) {
                Some((used - 1) as nat)
            } else {
                None
            },
        }
    }
}

/// Once found below `a`, a key is found at the same slot below any `b >= a`.
/// A lookup finds the first used slot that holds the key: that slot holds
/// it and no used slot before it does; no slot is found when no used slot
/// holds the key.
pub proof fn lemma_first_slot_meaning(slots: Seq<Option<NodeKey>>, used: nat, key: NodeKey)
    requires
        used <= slots.len(),
    ensures
        first_slot(slots, used, key) matches Some(i) ==> i < used && slots[i as int] == Some(key)
            && forall|j: int| 0 <= j < i ==> #[trigger] slots[j] != Some(key),
        first_slot(slots, used, key) is None ==> forall|j: int|
            0 <= j < used ==> #[trigger] slots[j] != Some(key),
    decreases used,
{
    if used > 0 {
        lemma_first_slot_meaning(slots, (used - 1) as nat, key);
    }
}

proof fn lemma_first_slot_extend(slots: Seq<Option<NodeKey>>, a: nat, b: nat, key: NodeKey)
    requires
        a <= b,
        first_slot(slots, a, key) is Some,
    ensures
        first_slot(slots, b, key) == first_slot(slots, a, key),
    decreases b,
{
    if a < b {
        lemma_first_slot_extend(slots, a, (b - 1) as nat, key);
    }
}

/// Lookups below `used` only see the first `used` slots.
proof fn lemma_first_slot_prefix(
    s: Seq<Option<NodeKey>>,
    t: Seq<Option<NodeKey>>,
    used: nat,
    key: NodeKey,
)
    requires
        used <= s.len(),
        used <= t.len(),
        forall|i: int| 0 <= i < used ==> s[i] == t[i],
    ensures
        first_slot(s, used, key) == first_slot(t, used, key),
    decreases used,
{
    if used > 0 {
        lemma_first_slot_prefix(s, t, (used - 1) as nat, key);
    }
}

/// Writing a key just past the searched slots, and searching one slot more,
/// finds that key there and every other key where it was found before.
proof fn lemma_first_slot_after_append(
    slots: Seq<Option<NodeKey>>,
    used: nat,
    key: NodeKey,
    k: NodeKey,
)
    requires
        used < slots.len(),
    ensures
        k != key ==> first_slot(slots.update(used as int, Some(key)), used + 1, k) == first_slot(
            slots,
            used,
            k,
        ),
        first_slot(slots, used, key) is None ==> first_slot(
            slots.update(used as int, Some(key)),
            used + 1,
            key,
        ) == Some(used),
{
    let t = slots.update(used as int, Some(key));
    lemma_first_slot_prefix(slots, t, used, k);
    lemma_first_slot_prefix(slots, t, used, key);
}

/// The key slots of a run's node cache. A slot's node state is kept by the
/// caller at the same index.
#[derive(Clone, Copy)]
pub struct NodeCache {
    slots: [Option<NodeKey>; 64],
    next_free: usize,
}

impl NodeCache {
    #[verifier::type_invariant]
    spec fn inv(self) -> bool {
        self.next_free <= CACHE_SIZE
    }

    /// The key held by each slot.
    pub closed spec fn slots(&self) -> Seq<Option<NodeKey>> {
        self.slots@
    }

    /// The number of slots that lookups search.
    pub closed spec fn used(&self) -> nat {
        self.next_free as nat
    }

    /// The slot `key` was given, if a lookup can see it.
    pub open spec fn lookup(&self, key: NodeKey) -> Option<nat> {
        first_slot(self.slots(), self.used(), key)
    }

    /// An empty cache.
    pub fn new() -> (r: Self)
        ensures
            r.used() == 0,
            r.slots() == Seq::new(64, |i: int| None::<NodeKey>),
    {
        let r = NodeCache { slots: [None;64], next_free: 0 };
        assert(r.slots() =~= Seq::new(64, |i: int| None::<NodeKey>));
        r
    }

    /// The first searched slot that holds `key`.
    pub fn find(&self, key: &NodeKey) -> (r: Option<usize>)
        ensures
            r matches Some(i) ==> self.lookup(*key) == Some(i as nat),
            r is None ==> self.lookup(*key) is None,
    {
        proof {
            use_type_invariant(self);
        }
        let mut i: usize = 0;
        while i < self.next_free
            invariant
                i <= self.next_free <= 64,
                first_slot(self.slots@, i as nat, *key) is None,
            decreases self.next_free - i,
        {
            if let Some(n) = &self.slots[i] {
                if *n == *key {
                    proof {
                        assert(first_slot(self.slots@, (i + 1) as nat, *key) == Some(i as nat));
                        lemma_first_slot_extend(
                            self.slots@,
                            (i + 1) as nat,
                            self.next_free as nat,
                            *key,
                        );
                    }
                    return Some(i);
                }
            }
            i += 1;
        }
        None
    }

    /// Hands out the slot for a key that has none: the next unused slot, or,
    /// when all are used, the last slot, which lookups then stop searching.
    pub fn claim(&mut self, key: NodeKey) -> (r: usize)
        requires
            old(self).lookup(key) is None,
        ensures
            old(self).used() < 64 ==> r == old(self).used() && final(self).used() == old(
                self,
            ).used() + 1,
            old(self).used() >= 64 ==> r == 63 && final(self).used() == 63,
            final(self).slots() == old(self).slots().update(r as int, Some(key)),
            old(self).used() < 64 ==> final(self).lookup(key) == Some(r as nat),
            forall|k: NodeKey|
                k != key && old(self).used() < 64 ==> #[trigger] final(self).lookup(k) == old(
                    self,
                ).lookup(k),
    {
        proof {
            use_type_invariant(&*self);
        }
        let i = self.next_free;
        if i >= CACHE_SIZE {
            let mut slots = self.slots;
            slots[CACHE_SIZE - 1] = Some(key);
            *self = NodeCache { slots, next_free: CACHE_SIZE - 1 };
            return CACHE_SIZE - 1;
        }
        let mut slots = self.slots;
        slots[i] = Some(key);
        *self = NodeCache { slots, next_free: i + 1 };
        proof {
            assert(self.slots() == old(self).slots().update(i as int, Some(key)));
            lemma_first_slot_after_append(old(self).slots(), i as nat, key, key);
            assert forall|k: NodeKey| k != key implies #[trigger] self.lookup(k) == old(
                self,
            ).lookup(k) by {
                lemma_first_slot_after_append(old(self).slots(), i as nat, key, k);
            }
        }
        i
    }
}

/// Stack-allocated 8-byte seed buffer.
#[derive(Clone, Copy)]
pub struct Buf {
    bytes: [u8; 8],
    len: u8,
}

impl View for Buf {
    type V = Seq<u8>;

    /// The bytes written.
    closed spec fn view(&self) -> Seq<u8> {
        self.bytes@.subrange(0, self.len as int)
    }
}

impl Buf {
    #[verifier::type_invariant]
    spec fn inv(self) -> bool {
        self.len <= 8
    }

    /// An empty buffer.
    pub fn new() -> (r: Self)
        ensures
            r@ == Seq::<u8>::empty(),
    {
        let r = Self { bytes: [0;8], len: 0 };
        assert(r@ =~= Seq::<u8>::empty());
        r
    }

    /// Holds the first (at most 8) bytes of `s`.
    pub fn write(&mut self, text: &str)
        ensures
            final(self)@ == text.spec_bytes().subrange(
                0,
                if text.spec_bytes().len() < 8 {
                    text.spec_bytes().len() as int
                } else {
                    8
                },
            ),
    {
        let s = text.as_bytes();
        let n = if s.len() < 8 { s.len() } else { 8 };
        let mut bytes = self.bytes;
        let mut i: usize = 0;
        while i < n
            invariant
                i <= n <= 8,
                n <= s@.len(),
                forall|k: int| 0 <= k < i ==> #[trigger] bytes[k] == s@[k],
            decreases n - i,
        {
            bytes[i] = s[i];
            i += 1;
        }
        let next = Self { bytes, len: n as u8 };
        assert(next@ =~= s@.subrange(0, n as int));
        *self = next;
    }

    /// The held bytes as a string, one character per byte.
    pub fn as_str(&self) -> (r: String)
        ensures
            r@ == bytes_as_chars(self@),
    {
        proof {
            use_type_invariant(self);
        }
        let mut s = String::new();
        let n = self.len as usize;
        let mut i: usize = 0;
        while i < n
            invariant
                i <= n <= 8,
                n == self.len,
                n == self@.len(),
                s@ =~= bytes_as_chars(self@.subrange(0, i as int)),
            decreases n - i,
        {
            push_char(&mut s, self.bytes[i] as char);
            assert(self@.subrange(0, i + 1) =~= self@.subrange(0, i as int).push(
                self.bytes@[i as int],
            ));
            i += 1;
        }
        assert(self@.subrange(0, n as int) =~= self@);
        s
    }

    /// Number of bytes held.
    pub fn len(&self) -> (r: usize)
        ensures
            r == self@.len(),
    {
        proof {
            use_type_invariant(self);
        }
        self.len as usize
    }
}


// ---------------------------------------------------------------------------
// Distinct keys
// ---------------------------------------------------------------------------

/// A key's length, first, second and last character.
pub open spec fn key_sig(k: Seq<char>) -> (nat, char, char, char) {
    (k.len(), k[0], k[1], k[k.len() - 1])
}

/// The signature of each random type's key.
spec fn type_sig(t: RandomType) -> (nat, char, char, char) {
    match t {
        RandomType::JokerCommon => (6nat, 'J', 'o', '1'),
        RandomType::JokerUncommon => (6nat, 'J', 'o', '2'),
        RandomType::JokerRare => (6nat, 'J', 'o', '3'),
        RandomType::JokerLegendary => (6nat, 'J', 'o', '4'),
        RandomType::JokerRarity => (6nat, 'r', 'a', 'y'),
        RandomType::JokerEdition => (3nat, 'e', 'd', 'i'),
        RandomType::Misprint => (8nat, 'm', 'i', 't'),
        RandomType::StandardHasEnhancement => (6nat, 's', 't', 't'),
        RandomType::Enhancement => (8nat, 'E', 'n', 'd'),
        RandomType::Card => (5nat, 'f', 'r', 't'),
        RandomType::StandardEdition => (16nat, 's', 't', 'n'),
        RandomType::StandardHasSeal => (7nat, 's', 't', 'l'),
        RandomType::StandardSeal => (11nat, 's', 't', 'e'),
        RandomType::ShopPack => (9nat, 's', 'h', 'k'),
        RandomType::Tarot => (5nat, 'T', 'a', 't'),
        RandomType::Spectral => (8nat, 'S', 'p', 'l'),
        RandomType::Tags => (3nat, 'T', 'a', 'g'),
        RandomType::ShuffleNewRound => (2nat, 'n', 'r', 'r'),
        RandomType::CardType => (3nat, 'c', 'd', 't'),
        RandomType::Planet => (6nat, 'P', 'l', 't'),
        RandomType::LuckyMult => (10nat, 'l', 'u', 't'),
        RandomType::LuckyMoney => (11nat, 'l', 'u', 'y'),
        RandomType::Sigil => (5nat, 's', 'i', 'l'),
        RandomType::Ouija => (5nat, 'o', 'u', 'a'),
        RandomType::WheelOfFortune => (16nat, 'w', 'h', 'e'),
        RandomType::GrosMichel => (11nat, 'g', 'r', 'l'),
        RandomType::Cavendish => (9nat, 'c', 'a', 'h'),
        RandomType::Voucher => (7nat, 'V', 'o', 'r'),
        RandomType::VoucherTag => (15nat, 'V', 'o', 'g'),
        RandomType::OrbitalTag => (7nat, 'o', 'r', 'l'),
        RandomType::Soul => (5nat, 's', 'o', '_'),
        RandomType::Erratic => (7nat, 'e', 'r', 'c'),
        RandomType::Eternal => (24nat, 's', 't', 'l'),
        RandomType::Perishable => (4nat, 's', 's', 'p'),
        RandomType::Rental => (4nat, 's', 's', 'r'),
        RandomType::EternalPerishable => (9nat, 'e', 't', 'l'),
        RandomType::RentalPack => (8nat, 'p', 'a', 'r'),
        RandomType::EternalPerishablePack => (9nat, 'p', 'a', 'r'),
        RandomType::Boss => (4nat, 'b', 'o', 's'),
    }
}

/// The random type whose key has signature `g`, if any.
spec fn type_of_sig(g: (nat, char, char, char)) -> Option<RandomType> {
    if g == (6nat, 'J', 'o', '1') {
        Some(RandomType::JokerCommon)
    } else if g == (6nat, 'J', 'o', '2') {
        Some(RandomType::JokerUncommon)
    } else if g == (6nat, 'J', 'o', '3') {
        Some(RandomType::JokerRare)
    } else if g == (6nat, 'J', 'o', '4') {
        Some(RandomType::JokerLegendary)
    } else if g == (6nat, 'r', 'a', 'y') {
        Some(RandomType::JokerRarity)
    } else if g == (3nat, 'e', 'd', 'i') {
        Some(RandomType::JokerEdition)
    } else if g == (8nat, 'm', 'i', 't') {
        Some(RandomType::Misprint)
    } else if g == (6nat, 's', 't', 't') {
        Some(RandomType::StandardHasEnhancement)
    } else if g == (8nat, 'E', 'n', 'd') {
        Some(RandomType::Enhancement)
    } else if g == (5nat, 'f', 'r', 't') {
        Some(RandomType::Card)
    } else if g == (16nat, 's', 't', 'n') {
        Some(RandomType::StandardEdition)
    } else if g == (7nat, 's', 't', 'l') {
        Some(RandomType::StandardHasSeal)
    } else if g == (11nat, 's', 't', 'e') {
        Some(RandomType::StandardSeal)
    } else if g == (9nat, 's', 'h', 'k') {
        Some(RandomType::ShopPack)
    } else if g == (5nat, 'T', 'a', 't') {
        Some(RandomType::Tarot)
    } else if g == (8nat, 'S', 'p', 'l') {
        Some(RandomType::Spectral)
    } else if g == (3nat, 'T', 'a', 'g') {
        Some(RandomType::Tags)
    } else if g == (2nat, 'n', 'r', 'r') {
        Some(RandomType::ShuffleNewRound)
    } else if g == (3nat, 'c', 'd', 't') {
        Some(RandomType::CardType)
    } else if g == (6nat, 'P', 'l', 't') {
        Some(RandomType::Planet)
    } else if g == (10nat, 'l', 'u', 't') {
        Some(RandomType::LuckyMult)
    } else if g == (11nat, 'l', 'u', 'y') {
        Some(RandomType::LuckyMoney)
    } else if g == (5nat, 's', 'i', 'l') {
        Some(RandomType::Sigil)
    } else if g == (5nat, 'o', 'u', 'a') {
        Some(RandomType::Ouija)
    } else if g == (16nat, 'w', 'h', 'e') {
        Some(RandomType::WheelOfFortune)
    } else if g == (11nat, 'g', 'r', 'l') {
        Some(RandomType::GrosMichel)
    } else if g == (9nat, 'c', 'a', 'h') {
        Some(RandomType::Cavendish)
    } else if g == (7nat, 'V', 'o', 'r') {
        Some(RandomType::Voucher)
    } else if g == (15nat, 'V', 'o', 'g') {
        Some(RandomType::VoucherTag)
    } else if g == (7nat, 'o', 'r', 'l') {
        Some(RandomType::OrbitalTag)
    } else if g == (5nat, 's', 'o', '_') {
        Some(RandomType::Soul)
    } else if g == (7nat, 'e', 'r', 'c') {
        Some(RandomType::Erratic)
    } else if g == (24nat, 's', 't', 'l') {
        Some(RandomType::Eternal)
    } else if g == (4nat, 's', 's', 'p') {
        Some(RandomType::Perishable)
    } else if g == (4nat, 's', 's', 'r') {
        Some(RandomType::Rental)
    } else if g == (9nat, 'e', 't', 'l') {
        Some(RandomType::EternalPerishable)
    } else if g == (8nat, 'p', 'a', 'r') {
        Some(RandomType::RentalPack)
    } else if g == (9nat, 'p', 'a', 'r') {
        Some(RandomType::EternalPerishablePack)
    } else if g == (4nat, 'b', 'o', 's') {
        Some(RandomType::Boss)
    } else {
        None
    }
}

proof fn lemma_type_sig(t: RandomType)
    ensures
        key_sig(type_key(t)) == type_sig(t),
        type_of_sig(type_sig(t)) == Some(t),
{
    match t {
        RandomType::JokerCommon => reveal_strlit("Joker1"),
        RandomType::JokerUncommon => reveal_strlit("Joker2"),
        RandomType::JokerRare => reveal_strlit("Joker3"),
        RandomType::JokerLegendary => reveal_strlit("Joker4"),
        RandomType::JokerRarity => reveal_strlit("rarity"),
        RandomType::JokerEdition => reveal_strlit("edi"),
        RandomType::Misprint => reveal_strlit("misprint"),
        RandomType::StandardHasEnhancement => reveal_strlit("stdset"),
        RandomType::Enhancement => reveal_strlit("Enhanced"),
        RandomType::Card => reveal_strlit("front"),
        RandomType::StandardEdition => reveal_strlit("standard_edition"),
        RandomType::StandardHasSeal => reveal_strlit("stdseal"),
        RandomType::StandardSeal => reveal_strlit("stdsealtype"),
        RandomType::ShopPack => reveal_strlit("shop_pack"),
        RandomType::Tarot => reveal_strlit("Tarot"),
        RandomType::Spectral => reveal_strlit("Spectral"),
        RandomType::Tags => reveal_strlit("Tag"),
        RandomType::ShuffleNewRound => reveal_strlit("nr"),
        RandomType::CardType => reveal_strlit("cdt"),
        RandomType::Planet => reveal_strlit("Planet"),
        RandomType::LuckyMult => reveal_strlit("lucky_mult"),
        RandomType::LuckyMoney => reveal_strlit("lucky_money"),
        RandomType::Sigil => reveal_strlit("sigil"),
        RandomType::Ouija => reveal_strlit("ouija"),
        RandomType::WheelOfFortune => reveal_strlit("wheel_of_fortune"),
        RandomType::GrosMichel => reveal_strlit("gros_michel"),
        RandomType::Cavendish => reveal_strlit("cavendish"),
        RandomType::Voucher => reveal_strlit("Voucher"),
        RandomType::VoucherTag => reveal_strlit("Voucher_fromtag"),
        RandomType::OrbitalTag => reveal_strlit("orbital"),
        RandomType::Soul => reveal_strlit("soul_"),
        RandomType::Erratic => reveal_strlit("erratic"),
        RandomType::Eternal => reveal_strlit("stake_shop_joker_eternal"),
        RandomType::Perishable => reveal_strlit("ssjp"),
        RandomType::Rental => reveal_strlit("ssjr"),
        RandomType::EternalPerishable => reveal_strlit("etperpoll"),
        RandomType::RentalPack => reveal_strlit("packssjr"),
        RandomType::EternalPerishablePack => reveal_strlit("packetper"),
        RandomType::Boss => reveal_strlit("boss"),
    }
}

/// Different random types have different keys, and no key is empty.
pub proof fn lemma_type_keys_distinct(a: RandomType, b: RandomType)
    ensures
        type_key(a).len() > 0,
        type_key(a) == type_key(b) <==> a == b,
{
    lemma_type_sig(a);
    lemma_type_sig(b);
}

/// The signature of each source's key; the empty key of `Null` has none.
spec fn source_sig(s: RandomSource) -> (nat, char, char, char) {
    match s {
        RandomSource::Shop => (3nat, 's', 'h', 'o'),
        RandomSource::Emperor => (3nat, 'e', 'm', 'p'),
        RandomSource::HighPriestess => (3nat, 'p', 'r', 'i'),
        RandomSource::Judgement => (3nat, 'j', 'u', 'd'),
        RandomSource::Wraith => (3nat, 'w', 'r', 'a'),
        RandomSource::Arcana => (3nat, 'a', 'r', '1'),
        RandomSource::Celestial => (3nat, 'p', 'l', '1'),
        RandomSource::Spectral => (3nat, 's', 'p', 'e'),
        RandomSource::Standard => (3nat, 's', 't', 'a'),
        RandomSource::Buffoon => (3nat, 'b', 'u', 'f'),
        RandomSource::Vagabond => (3nat, 'v', 'a', 'g'),
        RandomSource::Superposition => (3nat, 's', 'u', 'p'),
        RandomSource::EightBall => (3nat, '8', 'b', 'a'),
        RandomSource::Seance => (3nat, 's', 'e', 'a'),
        RandomSource::SixthSense => (5nat, 's', 'i', 'h'),
        RandomSource::TopUp => (3nat, 't', 'o', 'p'),
        RandomSource::RareTag => (3nat, 'r', 't', 'a'),
        RandomSource::UncommonTag => (3nat, 'u', 't', 'a'),
        RandomSource::BlueSeal => (5nat, 'b', 'l', 'l'),
        RandomSource::PurpleSeal => (3nat, '8', 'b', 'a'),
        RandomSource::Soul => (3nat, 's', 'o', 'u'),
        RandomSource::RiffRaff => (3nat, 'r', 'i', 'f'),
        RandomSource::Cartomancer => (3nat, 'c', 'a', 'r'),
        RandomSource::Null => (0nat, ' ', ' ', ' '),
    }
}

/// The source whose key has signature `g`, if any; Eight Ball for the key
/// it shares with Purple Seal.
spec fn source_of_sig(g: (nat, char, char, char)) -> Option<RandomSource> {
    if g == (3nat, 's', 'h', 'o') {
        Some(RandomSource::Shop)
    } else if g == (3nat, 'e', 'm', 'p') {
        Some(RandomSource::Emperor)
    } else if g == (3nat, 'p', 'r', 'i') {
        Some(RandomSource::HighPriestess)
    } else if g == (3nat, 'j', 'u', 'd') {
        Some(RandomSource::Judgement)
    } else if g == (3nat, 'w', 'r', 'a') {
        Some(RandomSource::Wraith)
    } else if g == (3nat, 'a', 'r', '1') {
        Some(RandomSource::Arcana)
    } else if g == (3nat, 'p', 'l', '1') {
        Some(RandomSource::Celestial)
    } else if g == (3nat, 's', 'p', 'e') {
        Some(RandomSource::Spectral)
    } else if g == (3nat, 's', 't', 'a') {
        Some(RandomSource::Standard)
    } else if g == (3nat, 'b', 'u', 'f') {
        Some(RandomSource::Buffoon)
    } else if g == (3nat, 'v', 'a', 'g') {
        Some(RandomSource::Vagabond)
    } else if g == (3nat, 's', 'u', 'p') {
        Some(RandomSource::Superposition)
    } else if g == (3nat, '8', 'b', 'a') {
        Some(RandomSource::EightBall)
    } else if g == (3nat, 's', 'e', 'a') {
        Some(RandomSource::Seance)
    } else if g == (5nat, 's', 'i', 'h') {
        Some(RandomSource::SixthSense)
    } else if g == (3nat, 't', 'o', 'p') {
        Some(RandomSource::TopUp)
    } else if g == (3nat, 'r', 't', 'a') {
        Some(RandomSource::RareTag)
    } else if g == (3nat, 'u', 't', 'a') {
        Some(RandomSource::UncommonTag)
    } else if g == (5nat, 'b', 'l', 'l') {
        Some(RandomSource::BlueSeal)
    } else if g == (3nat, 's', 'o', 'u') {
        Some(RandomSource::Soul)
    } else if g == (3nat, 'r', 'i', 'f') {
        Some(RandomSource::RiffRaff)
    } else if g == (3nat, 'c', 'a', 'r') {
        Some(RandomSource::Cartomancer)
    } else {
        None
    }
}

/// The source that stands for the key of `s`: Eight Ball for Purple Seal,
/// else `s` itself.
spec fn key_owner(s: RandomSource) -> RandomSource {
    if s == RandomSource::PurpleSeal {
        RandomSource::EightBall
    } else {
        s
    }
}

proof fn lemma_source_sig(s: RandomSource)
    ensures
        s != RandomSource::Null ==> key_sig(source_key(s)) == source_sig(s),
        s != RandomSource::Null ==> source_of_sig(source_sig(s)) == Some(key_owner(s)),
        source_key(s).len() == source_sig(s).0,
{
    match s {
        RandomSource::Shop => reveal_strlit("sho"),
        RandomSource::Emperor => reveal_strlit("emp"),
        RandomSource::HighPriestess => reveal_strlit("pri"),
        RandomSource::Judgement => reveal_strlit("jud"),
        RandomSource::Wraith => reveal_strlit("wra"),
        RandomSource::Arcana => reveal_strlit("ar1"),
        RandomSource::Celestial => reveal_strlit("pl1"),
        RandomSource::Spectral => reveal_strlit("spe"),
        RandomSource::Standard => reveal_strlit("sta"),
        RandomSource::Buffoon => reveal_strlit("buf"),
        RandomSource::Vagabond => reveal_strlit("vag"),
        RandomSource::Superposition => reveal_strlit("sup"),
        RandomSource::EightBall => reveal_strlit("8ba"),
        RandomSource::Seance => reveal_strlit("sea"),
        RandomSource::SixthSense => reveal_strlit("sixth"),
        RandomSource::TopUp => reveal_strlit("top"),
        RandomSource::RareTag => reveal_strlit("rta"),
        RandomSource::UncommonTag => reveal_strlit("uta"),
        RandomSource::BlueSeal => reveal_strlit("blusl"),
        RandomSource::PurpleSeal => reveal_strlit("8ba"),
        RandomSource::Soul => reveal_strlit("sou"),
        RandomSource::RiffRaff => reveal_strlit("rif"),
        RandomSource::Cartomancer => reveal_strlit("car"),
        RandomSource::Null => reveal_strlit(""),
    }
}

/// Only `Null` has the empty key, and the only two different sources that
/// share a key are Eight Ball and Purple Seal.
pub proof fn lemma_source_keys(a: RandomSource, b: RandomSource)
    ensures
        source_key(a).len() == 0 <==> a == RandomSource::Null,
        a != b ==> (source_key(a) == source_key(b) <==> ((a == RandomSource::EightBall && b
            == RandomSource::PurpleSeal) || (a == RandomSource::PurpleSeal && b
            == RandomSource::EightBall))),
{
    lemma_source_sig(a);
    lemma_source_sig(b);
    if a != RandomSource::Null && b == RandomSource::Null {
        assert(source_key(a).len() != source_key(b).len());
    }
    if a == RandomSource::Null && b != RandomSource::Null {
        assert(source_key(a).len() != source_key(b).len());
    }
}

} // verus!
