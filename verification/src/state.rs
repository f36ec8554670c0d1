//! Run configuration: deck, stake and seed buffer.

use vstd::prelude::*;

use crate::text::{bytes_as_chars, string_from_bytes};

verus! {

/// Starting decks.
#[derive(Clone, Copy, Debug, PartialEq, Eq, Structural)]
pub enum Deck {
    Red,
    Blue,
    Yellow,
    Green,
    Black,
    Magic,
    Nebula,
    GhostDeck,
    Abandoned,
    Checkered,
    Zodiac,
    Painted,
    Anaglyph,
    Plasma,
    Erratic,
}

/// Stakes in ascending difficulty order (White is stake 1, Gold stake 8).
#[derive(Clone, Copy, Debug, PartialEq, Eq, PartialOrd, Ord, Structural)]
pub enum Stake {
    White,
    Red,
    Green,
    Black,
    Blue,
    Purple,
    Orange,
    Gold,
}

#[derive(Clone, Debug)]
pub struct RunConfig {
    pub deck: Deck,
    pub stake: Stake,
    pub seed: [u8; 8],
    pub seed_len: u8,
}

/// The first `len` bytes of `buf` as a string, one character per byte.
pub fn seed_as_str(buf: &[u8; 8], len: u8) -> (r: String)
    requires
        len <= 8,
    ensures
        r@ == bytes_as_chars(buf@.subrange(0, len as int)),
{
    let mut head: Vec<u8> = Vec::new();
    let mut i: usize = 0;
    while i < len as usize
        invariant
            i <= len <= 8,
            head@ == buf@.subrange(0, i as int),
        decreases len - i,
    {
        head.push(buf[i]);
        assert(head@ =~= buf@.subrange(0, i + 1));
        i += 1;
    }
    string_from_bytes(head.as_slice())
}

/// The deck with index `i` in the order above; indices past the end give Erratic.
pub open spec fn spec_deck_from_idx(i: u8) -> Deck {
    if i == 0 {
        Deck::Red
    } else if i == 1 {
        Deck::Blue
    } else if i == 2 {
        Deck::Yellow
    } else if i == 3 {
        Deck::Green
    } else if i == 4 {
        Deck::Black
    } else if i == 5 {
        Deck::Magic
    } else if i == 6 {
        Deck::Nebula
    } else if i == 7 {
        Deck::GhostDeck
    } else if i == 8 {
        Deck::Abandoned
    } else if i == 9 {
        Deck::Checkered
    } else if i == 10 {
        Deck::Zodiac
    } else if i == 11 {
        Deck::Painted
    } else if i == 12 {
        Deck::Anaglyph
    } else if i == 13 {
        Deck::Plasma
    } else {
        Deck::Erratic
    }
}

/// The stake with index `i` (0 = White); indices past the end give Gold.
pub open spec fn spec_stake_from_idx(i: u8) -> Stake {
    if i == 0 {
        Stake::White
    } else if i == 1 {
        Stake::Red
    } else if i == 2 {
        Stake::Green
    } else if i == 3 {
        Stake::Black
    } else if i == 4 {
        Stake::Blue
    } else if i == 5 {
        Stake::Purple
    } else if i == 6 {
        Stake::Orange
    } else {
        Stake::Gold
    }
}

/// Decodes a deck index sent by the web workers.
pub fn deck_from_idx(i: u8) -> (r: Deck)
    ensures
        r == spec_deck_from_idx(i),
{
    match i {
        0 => Deck::Red,
        1 => Deck::Blue,
        2 => Deck::Yellow,
        3 => Deck::Green,
        4 => Deck::Black,
        5 => Deck::Magic,
        6 => Deck::Nebula,
        7 => Deck::GhostDeck,
        8 => Deck::Abandoned,
        9 => Deck::Checkered,
        10 => Deck::Zodiac,
        11 => Deck::Painted,
        12 => Deck::Anaglyph,
        13 => Deck::Plasma,
        _ => Deck::Erratic,
    }
}

/// Decodes a stake index sent by the web workers.
pub fn stake_from_idx(i: u8) -> (r: Stake)
    ensures
        r == spec_stake_from_idx(i),
{
    match i {
        0 => Stake::White,
        1 => Stake::Red,
        2 => Stake::Green,
        3 => Stake::Black,
        4 => Stake::Blue,
        5 => Stake::Purple,
        6 => Stake::Orange,
        _ => Stake::Gold,
    }
}


/// The deck indices 0 to 14 name the fifteen decks, each once, in the order
/// Red, Blue, Yellow, Green, Black, Magic, Nebula, Ghost, Abandoned,
/// Checkered, Zodiac, Painted, Anaglyph, Plasma, Erratic; every index past
/// 14 names Erratic too.
pub proof fn lemma_deck_indices(i: u8, j: u8)
    ensures
        i < j <= 14 ==> spec_deck_from_idx(i) != spec_deck_from_idx(j),
        i >= 14 ==> spec_deck_from_idx(i) == Deck::Erratic,
        spec_deck_from_idx(0) == Deck::Red && spec_deck_from_idx(1) == Deck::Blue
            && spec_deck_from_idx(2) == Deck::Yellow && spec_deck_from_idx(3) == Deck::Green
            && spec_deck_from_idx(4) == Deck::Black && spec_deck_from_idx(5) == Deck::Magic
            && spec_deck_from_idx(6) == Deck::Nebula && spec_deck_from_idx(7) == Deck::GhostDeck
            && spec_deck_from_idx(8) == Deck::Abandoned && spec_deck_from_idx(9)
            == Deck::Checkered && spec_deck_from_idx(10) == Deck::Zodiac && spec_deck_from_idx(11)
            == Deck::Painted && spec_deck_from_idx(12) == Deck::Anaglyph && spec_deck_from_idx(13)
            == Deck::Plasma,
{
}

/// The stake indices 0 to 7 name the eight stakes, each once, from White up:
/// White, Red, Green, Black, Blue, Purple, Orange, Gold; every index past 7
/// names Gold too.
pub proof fn lemma_stake_indices(i: u8, j: u8)
    ensures
        i < j <= 7 ==> spec_stake_from_idx(i) != spec_stake_from_idx(j),
        i >= 7 ==> spec_stake_from_idx(i) == Stake::Gold,
        spec_stake_from_idx(0) == Stake::White && spec_stake_from_idx(1) == Stake::Red
            && spec_stake_from_idx(2) == Stake::Green && spec_stake_from_idx(3) == Stake::Black
            && spec_stake_from_idx(4) == Stake::Blue && spec_stake_from_idx(5) == Stake::Purple
            && spec_stake_from_idx(6) == Stake::Orange,
{
}

} // verus!
