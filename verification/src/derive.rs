//! Draw outcomes and the integer decisions of the game-state derivations.
//!
//! The draws themselves are floating point; what is here is what a draw
//! decides without one (rarities forced by the source), and the shapes of
//! derived shop slots, standard cards and pack contents with the predicates
//! the filter evaluates on them.

use vstd::prelude::*;
use vstd::string::StringSliceAdditionalSpecFns;

use crate::filter::{enhancement_id, enhancement_name_to_id, hash16, stable_hash16_u16};
use crate::instance::RandomSource;

verus! {

/// Rarity bucket the next joker draw falls into.
#[derive(Clone, Copy, Debug, PartialEq, Eq, Structural)]
pub enum Rarity {
    Common,
    Uncommon,
    Rare,
    Legendary,
}

/// Edition rolled for the next joker.
#[derive(Clone, Copy, Debug, PartialEq, Eq, Structural)]
pub enum Edition {
    NoEdition,
    Foil,
    Holographic,
    Polychrome,
    Negative,
}

/// The rarity a source forces on its joker, if it forces one.
pub open spec fn spec_forced_rarity(source: RandomSource) -> Option<Rarity> {
    match source {
        RandomSource::Soul => Some(Rarity::Legendary),
        RandomSource::RareTag => Some(Rarity::Rare),
        RandomSource::UncommonTag => Some(Rarity::Uncommon),
        RandomSource::RiffRaff => Some(Rarity::Common),
        _ => None,
    }
}

/// The rarity forced by the source of a joker draw: the Soul gives a
/// Legendary, the Rare and Uncommon tags their rarity, Riff-Raff a Common.
/// Any other source rolls for rarity.
pub fn forced_rarity(source: RandomSource) -> (r: Option<Rarity>)
    ensures
        r == spec_forced_rarity(source),
{
    match source {
        RandomSource::Soul => Some(Rarity::Legendary),
        RandomSource::RareTag => Some(Rarity::Rare),
        RandomSource::UncommonTag => Some(Rarity::Uncommon),
        RandomSource::RiffRaff => Some(Rarity::Common),
        _ => None,
    }
}

/// Seal on a playing card.
#[derive(Clone, Copy, Debug, PartialEq, Eq, Structural)]
pub enum Seal {
    NoSeal,
    Red,
    Blue,
    Gold,
    Purple,
}

/// What a shop slot sells.
#[derive(Clone, Copy, Debug, PartialEq, Eq, Structural)]
pub enum ShopItemType {
    Joker,
    Tarot,
    Planet,
    Spectral,
}

/// Stickers a shop joker carries.
#[derive(Clone, Copy, Debug, PartialEq, Eq, Structural)]
pub struct Stickers {
    pub eternal: bool,
    pub perishable: bool,
    pub rental: bool,
}

/// One derived shop slot.
#[derive(Clone, Copy, Debug)]
pub struct ShopSlot {
    pub kind: ShopItemType,
    pub item: &'static str,
    pub edition: Edition,
    pub stickers: Stickers,
}

/// One card of a Standard pack.
#[derive(Clone, Copy, Debug)]
pub struct StandardCard {
    pub base: &'static str,
    pub enhancement: Option<&'static str>,
    pub edition: Edition,
    pub seal: Seal,
}

/// What an opened pack holds.
#[derive(Debug)]
pub enum PackContents {
    Tarots(Vec<&'static str>),
    Planets(Vec<&'static str>),
    Spectrals(Vec<&'static str>),
    Jokers(Vec<&'static str>),
    StandardCards(Vec<StandardCard>),
    Standard,
    Unknown,
}

/// The filter's index of an edition.
pub open spec fn spec_edition_idx(e: Edition) -> u8 {
    match e {
        Edition::NoEdition => 0,
        Edition::Foil => 1,
        Edition::Holographic => 2,
        Edition::Polychrome => 3,
        Edition::Negative => 4,
    }
}

/// The filter's index of a seal.
pub open spec fn spec_seal_idx(s: Seal) -> u8 {
    match s {
        Seal::NoSeal => 0,
        Seal::Red => 1,
        Seal::Blue => 2,
        Seal::Gold => 3,
        Seal::Purple => 4,
    }
}

/// The filter's index of an edition: none 0, foil 1, holographic 2, polychrome 3, negative 4.
pub fn edition_idx(e: Edition) -> (r: u8)
    ensures
        r == spec_edition_idx(e),
{
    match e {
        Edition::NoEdition => 0,
        Edition::Foil => 1,
        Edition::Holographic => 2,
        Edition::Polychrome => 3,
        Edition::Negative => 4,
    }
}

/// The filter's index of a seal: none 0, red 1, blue 2, gold 3, purple 4.
pub fn seal_idx(s: Seal) -> (r: u8)
    ensures
        r == spec_seal_idx(s),
{
    match s {
        Seal::NoSeal => 0,
        Seal::Red => 1,
        Seal::Blue => 2,
        Seal::Gold => 3,
        Seal::Purple => 4,
    }
}

/// Whether a shop slot is joker `joker_id` with the wanted edition and sticker.
/// Sticker index 1 asks for eternal, 2 perishable, 3 rental; any other index
/// asks for nothing.
pub open spec fn spec_matches_shop_slot(
    slot: ShopSlot,
    joker_id: u16,
    want_edition: Option<u8>,
    want_sticker: Option<u8>,
) -> bool {
    &&& slot.kind == ShopItemType::Joker
    &&& hash16(slot.item.spec_bytes()) == joker_id
    &&& (want_edition matches Some(e) ==> spec_edition_idx(slot.edition) == e)
    &&& (want_sticker matches Some(s) ==> (if s == 1 {
        slot.stickers.eternal
    } else if s == 2 {
        slot.stickers.perishable
    } else if s == 3 {
        slot.stickers.rental
    } else {
        true
    }))
}

/// Checks a shop slot against a compiled joker clause.
pub fn matches_shop_slot(
    slot: &ShopSlot,
    joker_id: u16,
    want_edition: Option<u8>,
    want_sticker: Option<u8>,
) -> (r: bool)
    ensures
        r == spec_matches_shop_slot(*slot, joker_id, want_edition, want_sticker),
{
    if !matches!(slot.kind, ShopItemType::Joker) {
        return false;
    }
    if stable_hash16_u16(slot.item) != joker_id {
        return false;
    }
    if let Some(e) = want_edition {
        if edition_idx(slot.edition) != e {
            return false;
        }
    }
    if let Some(s) = want_sticker {
        let ok = match s {
            1 => slot.stickers.eternal,
            2 => slot.stickers.perishable,
            3 => slot.stickers.rental,
            _ => true,
        };
        if !ok {
            return false;
        }
    }
    true
}

/// Whether a Standard-pack card meets a compiled card clause. A base digest
/// of 0 accepts any rank and suit; a wanted enhancement needs an enhancement
/// whose name, in its short form, has that digest.
pub open spec fn spec_matches_standard_card(
    c: StandardCard,
    base_id: u16,
    want_enh: Option<u16>,
    want_edition: Option<u8>,
    want_seal: Option<u8>,
) -> bool {
    &&& (base_id != 0 ==> hash16(c.base.spec_bytes()) == base_id)
    &&& (want_enh matches Some(eid) ==> c.enhancement matches Some(e) && enhancement_id(
        e.spec_bytes(),
    ) == eid)
    &&& (want_edition matches Some(e) ==> spec_edition_idx(c.edition) == e)
    &&& (want_seal matches Some(s) ==> spec_seal_idx(c.seal) == s)
}

/// Checks a Standard-pack card against a compiled card clause.
pub fn matches_standard_card(
    c: &StandardCard,
    base_id: u16,
    want_enh: Option<u16>,
    want_edition: Option<u8>,
    want_seal: Option<u8>,
) -> (r: bool)
    ensures
        r == spec_matches_standard_card(*c, base_id, want_enh, want_edition, want_seal),
{
    if base_id != 0 && stable_hash16_u16(c.base) != base_id {
        return false;
    }
    if let Some(eid) = want_enh {
        match c.enhancement {
            Some(e) => {
                if enhancement_name_to_id(e) != eid {
                    return false;
                }
            },
            _ => return false,
        }
    }
    if let Some(e) = want_edition {
        if edition_idx(c.edition) != e {
            return false;
        }
    }
    if let Some(s) = want_seal {
        if seal_idx(c.seal) != s {
            return false;
        }
    }
    true
}

/// Whether some name in `items` has digest `want`.
pub open spec fn some_name_has_id(items: Seq<&'static str>, want: u16) -> bool {
    exists|i: int| 0 <= i < items.len() && hash16(#[trigger] items[i].spec_bytes()) == want
}

/// Whether some card in `cards` has a base with digest `want`.
pub open spec fn some_base_has_id(cards: Seq<StandardCard>, want: u16) -> bool {
    exists|i: int| 0 <= i < cards.len() && hash16(#[trigger] cards[i].base.spec_bytes()) == want
}

/// Whether an opened pack holds an item (or a Standard card base) with digest `want`.
pub open spec fn spec_pack_contains_id(c: PackContents, want: u16) -> bool {
    match c {
        PackContents::Tarots(v) => some_name_has_id(v@, want),
        PackContents::Planets(v) => some_name_has_id(v@, want),
        PackContents::Spectrals(v) => some_name_has_id(v@, want),
        PackContents::Jokers(v) => some_name_has_id(v@, want),
        PackContents::StandardCards(cards) => some_base_has_id(cards@, want),
        PackContents::Standard => false,
        PackContents::Unknown => false,
    }
}

fn any_name_has_id(items: &Vec<&'static str>, want: u16) -> (r: bool)
    ensures
        r == some_name_has_id(items@, want),
{
    let mut i: usize = 0;
    while i < items.len()
        invariant
            i <= items@.len(),
            forall|j: int| 0 <= j < i ==> hash16(#[trigger] items@[j].spec_bytes()) != want,
        decreases items@.len() - i,
    {
        if stable_hash16_u16(items[i]) == want {
            return true;
        }
        i += 1;
    }
    false
}

/// Whether an opened pack holds an item (or a Standard card base) with digest `want`.
pub fn pack_contains_id(c: &PackContents, want: u16) -> (r: bool)
    ensures
        r == spec_pack_contains_id(*c, want),
{
    match c {
        PackContents::Tarots(v) | PackContents::Planets(v) | PackContents::Spectrals(v)
        | PackContents::Jokers(v) => any_name_has_id(v, want),
        PackContents::StandardCards(cards) => {
            let mut i: usize = 0;
            while i < cards.len()
                invariant
                    i <= cards@.len(),
                    *c == PackContents::StandardCards(*cards),
                    forall|j: int|
                        0 <= j < i ==> hash16(#[trigger] cards@[j].base.spec_bytes()) != want,
                decreases cards@.len() - i,
            {
                if stable_hash16_u16(cards[i].base) == want {
                    assert(hash16(cards@[i as int].base.spec_bytes()) == want);
                    return true;
                }
                i += 1;
            }
            false
        },
        PackContents::Standard | PackContents::Unknown => false,
    }
}


// ---------------------------------------------------------------------------
// Laws of the clause predicates
// ---------------------------------------------------------------------------

/// A shop-joker check on the wanted joker, asking for a sticker and no
/// edition, holds exactly when the slot carries that sticker: 1 the eternal
/// sticker, 2 the perishable one, 3 the rental one (whatever the other two
/// stickers are); any other index asks for nothing, and so does no sticker.
/// A slot that sells no joker, or another joker, never matches.
pub proof fn lemma_shop_slot_stickers(slot: ShopSlot, joker_id: u16, s: u8)
    ensures
        (slot.kind == ShopItemType::Joker && hash16(slot.item.spec_bytes()) == joker_id) ==> {
            &&& spec_matches_shop_slot(slot, joker_id, None, Some(1)) == slot.stickers.eternal
            &&& spec_matches_shop_slot(slot, joker_id, None, Some(2)) == slot.stickers.perishable
            &&& spec_matches_shop_slot(slot, joker_id, None, Some(3)) == slot.stickers.rental
            &&& (s != 1 && s != 2 && s != 3) ==> spec_matches_shop_slot(slot, joker_id, None, Some(s))
            &&& spec_matches_shop_slot(slot, joker_id, None, None)
        },
        slot.kind != ShopItemType::Joker ==> !spec_matches_shop_slot(slot, joker_id, None, None),
        hash16(slot.item.spec_bytes()) != joker_id ==> !spec_matches_shop_slot(
            slot,
            joker_id,
            None,
            None,
        ),
{
}

/// A shop-joker check on the wanted joker asking for an edition holds
/// exactly when the slot has that edition: 0 none, 1 foil, 2 holographic,
/// 3 polychrome, 4 negative; an index above 4 never holds. Asking for an
/// edition and a sticker holds when both checks alone hold.
pub proof fn lemma_shop_slot_editions(
    slot: ShopSlot,
    joker_id: u16,
    e: u8,
    want_sticker: Option<u8>,
)
    ensures
        (slot.kind == ShopItemType::Joker && hash16(slot.item.spec_bytes()) == joker_id) ==> {
            &&& spec_matches_shop_slot(slot, joker_id, Some(0), None) == (slot.edition
                == Edition::NoEdition)
            &&& spec_matches_shop_slot(slot, joker_id, Some(1), None) == (slot.edition
                == Edition::Foil)
            &&& spec_matches_shop_slot(slot, joker_id, Some(2), None) == (slot.edition
                == Edition::Holographic)
            &&& spec_matches_shop_slot(slot, joker_id, Some(3), None) == (slot.edition
                == Edition::Polychrome)
            &&& spec_matches_shop_slot(slot, joker_id, Some(4), None) == (slot.edition
                == Edition::Negative)
            &&& e > 4 ==> !spec_matches_shop_slot(slot, joker_id, Some(e), None)
        },
        spec_matches_shop_slot(slot, joker_id, Some(e), want_sticker) == (spec_matches_shop_slot(
            slot,
            joker_id,
            Some(e),
            None,
        ) && spec_matches_shop_slot(slot, joker_id, None, want_sticker)),
{
}

/// A Standard-card check: a base digest other than 0 needs the card's base
/// to have that digest, 0 takes any base; a wanted seal index is 0 none,
/// 1 red, 2 blue, 3 gold, 4 purple; a wanted edition index as for jokers;
/// a wanted enhancement needs an enhancement. All wanted parts must hold.
pub proof fn lemma_standard_card_parts(
    c: StandardCard,
    base_id: u16,
    want_enh: Option<u16>,
    want_edition: Option<u8>,
    want_seal: Option<u8>,
)
    ensures
        spec_matches_standard_card(c, 0, None, None, None),
        base_id != 0 ==> (spec_matches_standard_card(c, base_id, None, None, None) == (hash16(
            c.base.spec_bytes(),
        ) == base_id)),
        spec_matches_standard_card(c, 0, None, None, Some(0)) == (c.seal == Seal::NoSeal),
        spec_matches_standard_card(c, 0, None, None, Some(1)) == (c.seal == Seal::Red),
        spec_matches_standard_card(c, 0, None, None, Some(2)) == (c.seal == Seal::Blue),
        spec_matches_standard_card(c, 0, None, None, Some(3)) == (c.seal == Seal::Gold),
        spec_matches_standard_card(c, 0, None, None, Some(4)) == (c.seal == Seal::Purple),
        spec_matches_standard_card(c, 0, None, Some(0), None) == (c.edition == Edition::NoEdition),
        spec_matches_standard_card(c, 0, None, Some(1), None) == (c.edition == Edition::Foil),
        spec_matches_standard_card(c, 0, None, Some(2), None) == (c.edition
            == Edition::Holographic),
        spec_matches_standard_card(c, 0, None, Some(3), None) == (c.edition
            == Edition::Polychrome),
        spec_matches_standard_card(c, 0, None, Some(4), None) == (c.edition == Edition::Negative),
        c.enhancement is None ==> !spec_matches_standard_card(c, base_id, Some(0), None, None),
        c.enhancement is None ==> forall|id: u16|
            !#[trigger] spec_matches_standard_card(c, base_id, Some(id), want_edition, want_seal),
        spec_matches_standard_card(c, base_id, want_enh, want_edition, want_seal) == (
        spec_matches_standard_card(c, base_id, None, None, None) && spec_matches_standard_card(
            c,
            0,
            want_enh,
            None,
            None,
        ) && spec_matches_standard_card(c, 0, None, want_edition, None)
            && spec_matches_standard_card(c, 0, None, None, want_seal)),
{
}

/// An opened pack of named items holds digest `want` exactly when one of its
/// items has that digest, whatever kind of pack it is; a pack of Standard
/// cards holds it when a card's base has it; an unopened or unknown pack
/// holds nothing.
pub proof fn lemma_pack_contains(items: Vec<&'static str>, cards: Vec<StandardCard>, want: u16)
    ensures
        spec_pack_contains_id(PackContents::Tarots(items), want) == (exists|i: int|
            0 <= i < items@.len() && hash16(#[trigger] items@[i].spec_bytes()) == want),
        spec_pack_contains_id(PackContents::Planets(items), want) == spec_pack_contains_id(
            PackContents::Tarots(items),
            want,
        ),
        spec_pack_contains_id(PackContents::Spectrals(items), want) == spec_pack_contains_id(
            PackContents::Tarots(items),
            want,
        ),
        spec_pack_contains_id(PackContents::Jokers(items), want) == spec_pack_contains_id(
            PackContents::Tarots(items),
            want,
        ),
        spec_pack_contains_id(PackContents::StandardCards(cards), want) == (exists|i: int|
            0 <= i < cards@.len() && hash16(#[trigger] cards@[i].base.spec_bytes()) == want),
        !spec_pack_contains_id(PackContents::Standard, want),
        !spec_pack_contains_id(PackContents::Unknown, want),
{
}


/// Four sources force the rarity of their joker: the Soul a Legendary, the
/// Rare Tag a Rare, the Uncommon Tag an Uncommon, Riff-Raff a Common; every
/// other source rolls for it.
pub proof fn lemma_forced_rarities(source: RandomSource)
    ensures
        spec_forced_rarity(RandomSource::Soul) == Some(Rarity::Legendary),
        spec_forced_rarity(RandomSource::RareTag) == Some(Rarity::Rare),
        spec_forced_rarity(RandomSource::UncommonTag) == Some(Rarity::Uncommon),
        spec_forced_rarity(RandomSource::RiffRaff) == Some(Rarity::Common),
        spec_forced_rarity(source) is Some <==> (source == RandomSource::Soul || source
            == RandomSource::RareTag || source == RandomSource::UncommonTag || source
            == RandomSource::RiffRaff),
{
}

} // verus!
