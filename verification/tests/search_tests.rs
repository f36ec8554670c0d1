use balatro_seed_engine::derive::{
    edition_idx, forced_rarity, matches_shop_slot, matches_standard_card, pack_contains_id, seal_idx, Edition,
    PackContents, Rarity, Seal, ShopItemType, ShopSlot, StandardCard, Stickers,
};
use balatro_seed_engine::filter::{Clause, Filter};
use balatro_seed_engine::instance::RandomSource;
use balatro_seed_engine::search::{push_match_record, Match, Searcher};
use balatro_seed_engine::state::{deck_from_idx, stake_from_idx, Deck, RunConfig, Stake};
use balatro_seed_engine::v3::boss_probe::{boss_pool, is_boss_locked, pick_boss};

fn config(seed_len: u8) -> RunConfig {
    RunConfig { deck: Deck::Red, stake: Stake::White, seed: [0; 8], seed_len }
}

#[test]
fn strict_needs_every_clause_partial_needs_min_score() {
    let filter = Filter {
        clauses: vec![Clause::VoucherIs { ante: 1, voucher: "Overstock".into() }, Clause::AnteBossIs { ante: 3, boss: "TheHook".into() }],
        partial: false,
        min_score: None,
    };
    let compiled = filter.compile();
    let cfg = config(8);
    let strict = Searcher { config: &cfg, filter: &compiled, partial: false, min_score: 0 };
    assert!(strict.passes(2));
    assert!(!strict.passes(1));
    let partial = Searcher { config: &cfg, filter: &compiled, partial: true, min_score: 1 };
    assert!(partial.passes(1));
    assert!(!partial.passes(0));
}

#[test]
fn scan_cursor_walks_ranks_and_reports_matches() {
    let compiled = Filter { clauses: vec![], partial: true, min_score: Some(0) }.compile();
    let cfg = config(2);
    let s = Searcher { config: &cfg, filter: &compiled, partial: true, min_score: 3 };
    let mut cur = s.begin_scan(33, 4);
    let mut found: Vec<Match> = Vec::new();
    let scores = [5u8, 0, 3, 1];
    let mut i = 0;
    while !cur.done() {
        let mut buf = [0u8; 8];
        let n = cur.seed_bytes(&mut buf);
        assert_eq!(n, 2);
        if let Some(m) = s.record(&mut cur, scores[i]) {
            found.push(m);
        }
        i += 1;
    }
    assert_eq!(i, 4);
    // ranks 33, 34, 35, 36 at length 2 are "1Y", "1Z", "21", "22".
    assert_eq!(found.len(), 2);
    assert_eq!((found[0].seed.as_str(), found[0].rank, found[0].score), ("1Y", 33, 5));
    assert_eq!((found[1].seed.as_str(), found[1].rank, found[1].score), ("21", 35, 3));
}

#[test]
fn scan_grows_past_the_last_seed_of_a_length() {
    let compiled = Filter::default().compile();
    let cfg = config(1);
    let s = Searcher { config: &cfg, filter: &compiled, partial: false, min_score: 0 };
    let mut cur = s.begin_scan(34, 2);
    let m = s.record(&mut cur, 0).unwrap();
    assert_eq!((m.seed.as_str(), m.rank), ("Z", 34));
    let m = s.record(&mut cur, 0).unwrap();
    assert_eq!((m.seed.as_str(), m.rank), ("11", 35));
    assert!(cur.done());
    let last = s.begin_scan(u64::MAX, 1);
    assert!(last.rank_fits());
    let fin = Searcher { config: &config(8), filter: &compiled, partial: false, min_score: 0 }
        .begin_scan(35u64.pow(8) - 1, 1);
    assert!(fin.at_final_seed());
}

#[test]
fn match_record_layout() {
    let mut out = vec![9u8];
    let m = Match { seed: "ABC".to_string(), rank: 0x0102030405060708, score: 7 };
    push_match_record(&mut out, &m);
    assert_eq!(out, vec![9, 8, 7, 6, 5, 4, 3, 2, 1, 7, b'A', b'B', b'C', b' ', b' ', b' ', b' ', b' ']);
    assert_eq!(out.len(), 1 + 17);
}

#[test]
fn sources_force_rarities() {
    assert_eq!(forced_rarity(RandomSource::Soul), Some(Rarity::Legendary));
    assert_eq!(forced_rarity(RandomSource::RareTag), Some(Rarity::Rare));
    assert_eq!(forced_rarity(RandomSource::UncommonTag), Some(Rarity::Uncommon));
    assert_eq!(forced_rarity(RandomSource::RiffRaff), Some(Rarity::Common));
    assert_eq!(forced_rarity(RandomSource::Shop), None);
    assert_eq!(forced_rarity(RandomSource::Wraith), None);
}

#[test]
fn shop_slot_matching() {
    let slot = ShopSlot {
        kind: ShopItemType::Joker,
        item: "Blueprint",
        edition: Edition::Foil,
        stickers: Stickers { eternal: false, perishable: true, rental: false },
    };
    assert!(matches_shop_slot(&slot, 41832, None, None));
    assert!(matches_shop_slot(&slot, 41832, Some(1), Some(2)));
    assert!(!matches_shop_slot(&slot, 41832, Some(4), None));
    assert!(!matches_shop_slot(&slot, 41832, None, Some(1)));
    assert!(matches_shop_slot(&slot, 41832, None, Some(9)));
    assert!(!matches_shop_slot(&slot, 11258, None, None));
    let tarot = ShopSlot { kind: ShopItemType::Tarot, ..slot };
    assert!(!matches_shop_slot(&tarot, 41832, None, None));
    assert_eq!(edition_idx(Edition::NoEdition), 0);
    assert_eq!(edition_idx(Edition::Negative), 4);
    assert_eq!(seal_idx(Seal::NoSeal), 0);
    assert_eq!(seal_idx(Seal::Purple), 4);
}

#[test]
fn standard_card_and_pack_matching() {
    let card = StandardCard { base: "Ace of Spades", enhancement: Some("Glass Card"), edition: Edition::NoEdition, seal: Seal::Gold };
    assert!(matches_standard_card(&card, 0, None, None, Some(3)));
    assert!(matches_standard_card(&card, 38234, None, Some(0), None));
    assert!(!matches_standard_card(&card, 11258, None, None, None));
    assert!(!matches_standard_card(&card, 0, None, None, Some(1)));
    let plain = StandardCard { enhancement: None, ..card };
    assert!(!matches_standard_card(&plain, 0, Some(1), None, None));
    // "Glass Card" is the long form of "Glass": both digest to 14859.
    assert!(matches_standard_card(&card, 0, Some(14859), None, None));
    assert!(!matches_standard_card(&card, 0, Some(4132), None, None));
    let short = StandardCard { enhancement: Some("Glass"), ..card };
    assert!(matches_standard_card(&short, 0, Some(14859), None, None));
    let pack = PackContents::StandardCards(vec![plain, card]);
    assert!(pack_contains_id(&pack, 38234));
    assert!(!pack_contains_id(&pack, 37516));
    let spectral = PackContents::Spectrals(vec!["Wraith", "The Soul"]);
    assert!(pack_contains_id(&spectral, 37516));
    assert!(!pack_contains_id(&PackContents::Unknown, 37516));
}

#[test]
fn worker_indices_decode() {
    assert_eq!(deck_from_idx(0), Deck::Red);
    assert_eq!(deck_from_idx(7), Deck::GhostDeck);
    assert_eq!(deck_from_idx(200), Deck::Erratic);
    assert_eq!(stake_from_idx(0), Stake::White);
    assert_eq!(stake_from_idx(3), Stake::Black);
    assert_eq!(stake_from_idx(99), Stake::Gold);
    assert!(Stake::White < Stake::Gold);
}

#[test]
fn bosses_unlock_by_ante() {
    assert!(is_boss_locked("The Mouth", 1));
    assert!(!is_boss_locked("The Mouth", 2));
    assert!(is_boss_locked("The Eye", 2));
    assert!(!is_boss_locked("The Eye", 3));
    assert!(is_boss_locked("The Plant", 3));
    assert!(is_boss_locked("The Serpent", 4));
    assert!(is_boss_locked("The Ox", 5));
    assert!(!is_boss_locked("The Ox", 6));
    assert!(!is_boss_locked("The Hook", 1));
}

fn score_in_order(s: &Searcher<'_>, hits: &[bool]) -> u8 {
    let mut score = 0u8;
    for &hit in hits {
        let (next, go_on) = s.tally(score, hit);
        score = next;
        if !go_on {
            break;
        }
    }
    score
}

#[test]
fn reported_seeds_do_not_depend_on_op_order() {
    let filter = Filter {
        clauses: vec![
            Clause::VoucherIs { ante: 1, voucher: "Overstock".into() },
            Clause::AnteBossIs { ante: 3, boss: "TheHook".into() },
            Clause::AnteTagIs { ante: 1, position: 0, tag: "Blueprint".into() },
        ],
        partial: false,
        min_score: None,
    };
    let compiled = filter.compile();
    let cfg = config(8);
    let orders: [[bool; 3]; 3] = [[true, true, false], [true, false, true], [false, true, true]];
    for partial in [false, true] {
        let s = Searcher { config: &cfg, filter: &compiled, partial, min_score: 2 };
        let answers: Vec<bool> = orders.iter().map(|h| s.passes(score_in_order(&s, h))).collect();
        assert!(answers.iter().all(|a| *a == answers[0]));
        assert_eq!(answers[0], partial);
        assert!(s.passes(score_in_order(&s, &[true, true, true])));
    }
    let strict = Searcher { config: &cfg, filter: &compiled, partial: false, min_score: 0 };
    assert_eq!(score_in_order(&strict, &[true, false, true]), 1);
    assert_eq!(score_in_order(&strict, &[true, true, false]), 2);
}

#[test]
fn boss_pool_keeps_open_bosses_sorted() {
    let table = ["The Wall", "The Hook", "The Ox", "The Club", "The Eye", "The Hook"];
    assert_eq!(boss_pool(&table, 1), vec!["The Club", "The Hook", "The Hook"]);
    assert_eq!(boss_pool(&table, 3), vec!["The Club", "The Eye", "The Hook", "The Hook", "The Wall"]);
    assert_eq!(boss_pool(&table, 6), vec!["The Club", "The Eye", "The Hook", "The Hook", "The Ox", "The Wall"]);
    let pool = boss_pool(&table, 1);
    assert_eq!(pick_boss(&pool, 1), "The Club");
    assert_eq!(pick_boss(&pool, 3), "The Hook");
    assert_eq!(pick_boss(&Vec::new(), 0), "");
}

#[test]
fn report_gives_the_match_without_moving_the_cursor() {
    let compiled = Filter::default().compile();
    let cfg = config(8);
    let s = Searcher { config: &cfg, filter: &compiled, partial: true, min_score: 1 };
    let cur = s.begin_scan(0, 1);
    let m = s.report(&cur, 2).unwrap();
    assert_eq!((m.seed.as_str(), m.rank, m.score), ("11111111", 0, 2));
    assert!(s.report(&cur, 0).is_none());
    assert!(!cur.done());
}
