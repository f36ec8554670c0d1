use balatro_seed_engine::filter::{compile_clause, stable_hash16_u16, Clause, Filter, Op};

fn joker(ante: u8, name: &str, edition: Option<&str>, sticker: Option<&str>) -> Clause {
    Clause::AnteShopHasJoker {
        ante,
        slot: 0,
        joker: name.to_string(),
        edition: edition.map(|s| s.to_string()),
        sticker: sticker.map(|s| s.to_string()),
    }
}

#[test]
fn stable_hash_is_fnv1a_folded() {
    assert_eq!(stable_hash16_u16("Blueprint"), 41832);
    assert_eq!(stable_hash16_u16("Overstock"), 36889);
    assert_eq!(stable_hash16_u16("TheHook"), 14437);
    assert_eq!(stable_hash16_u16(""), 7385);
    assert_eq!(stable_hash16_u16("The Soul"), 37516);
    assert_eq!(stable_hash16_u16("Wraith"), 54207);
}

#[test]
fn clause_names_compile_to_ids() {
    match compile_clause(&joker(3, "Blueprint", Some("negative"), Some("rental"))) {
        Op::HasJoker { ante, slot, joker_id, edition, sticker } => {
            assert_eq!((ante, slot, joker_id, edition, sticker), (3, 0, 41832, Some(4), Some(3)));
        }
        other => panic!("unexpected op {other:?}"),
    }
    match compile_clause(&joker(1, "Joker", Some("sparkly"), Some("sticky"))) {
        Op::HasJoker { edition, sticker, .. } => assert_eq!((edition, sticker), (Some(0), Some(0))),
        other => panic!("unexpected op {other:?}"),
    }
    let seals = [("red", 1), ("Blue Seal", 2), ("gold seal", 3), ("purple", 4), ("green", 0)];
    for (name, id) in seals {
        let c = Clause::AnteStandardCardIs {
            ante: 1,
            max_packs: 6,
            base: String::new(),
            enhancement: None,
            edition: None,
            seal: Some(name.to_string()),
        };
        match compile_clause(&c) {
            Op::StandardCardIs { base_id, seal, .. } => assert_eq!((base_id, seal), (0, Some(id))),
            other => panic!("unexpected op {other:?}"),
        }
    }
}

#[test]
fn compile_orders_rarest_first_and_keeps_ties_in_order() {
    let filter = Filter {
        clauses: vec![
            Clause::AnteBossIs { ante: 3, boss: "TheHook".into() },
            Clause::VoucherIs { ante: 1, voucher: "Overstock".into() },
            joker(1, "Blueprint", None, None),
            joker(2, "Joker", Some("foil"), None),
            Clause::AnteWraithIs { ante: 1, max_packs: 6, joker: "Blueprint".into() },
        ],
        partial: false,
        min_score: None,
    };
    let c = filter.compile();
    assert_eq!(c.total_clauses, 5);
    let kinds: Vec<String> = c.ops.iter().map(|o| format!("{:?}", o).split_whitespace().next().unwrap().to_string()).collect();
    // edition joker (0.0003) < wraith (0.0006) < voucher (0.03) == plain joker (0.03, voucher first) < boss (0.06)
    assert_eq!(kinds, vec!["HasJoker", "WraithIs", "VoucherIs", "HasJoker", "BossIs"]);
    match &c.ops[0] {
        Op::HasJoker { ante, .. } => assert_eq!(*ante, 2),
        _ => panic!(),
    }
}

#[test]
fn any_of_is_ranked_by_its_rarest_child_times_its_size() {
    // AnyOf of two plain jokers: 0.03 * 2 == 0.06 in binary64, ties with BossIs (listed first).
    let filter = Filter {
        clauses: vec![
            Clause::AnteBossIs { ante: 3, boss: "TheHook".into() },
            Clause::AnyOf { clauses: vec![joker(1, "Blueprint", None, None), joker(2, "Blueprint", None, None)] },
            Clause::AnteTagIs { ante: 1, position: 1, tag: "Negative Tag".into() },
        ],
        partial: true,
        min_score: Some(1),
    };
    let c = filter.compile();
    assert!(matches!(c.ops[0], Op::TagIs { .. }));
    assert!(matches!(c.ops[1], Op::BossIs { .. }));
    match &c.ops[2] {
        Op::AnyOf { ops } => assert_eq!(ops.len(), 2),
        _ => panic!(),
    }
    // An empty AnyOf counts as certain (1.0) and goes last.
    let f2 = Filter {
        clauses: vec![Clause::AnyOf { clauses: vec![] }, Clause::AnteAnyPackContains { ante: 1, max_packs: 2, card: "Wraith".into() }],
        partial: false,
        min_score: None,
    };
    let c2 = f2.compile();
    assert!(matches!(c2.ops[0], Op::AnyPackContains { card_id: 54207, .. }));
}

#[test]
fn empty_filter_compiles_to_nothing() {
    let f = Filter::default();
    assert!(!f.partial);
    assert_eq!(f.min_score, None);
    let c = f.compile();
    assert!(c.ops.is_empty());
    assert_eq!(c.total_clauses, 0);
}

fn card_with_enhancement(name: &str) -> Clause {
    Clause::AnteStandardCardIs {
        ante: 1,
        max_packs: 6,
        base: String::new(),
        enhancement: Some(name.to_string()),
        edition: None,
        seal: None,
    }
}

#[test]
fn enhancement_short_and_long_forms_compile_alike() {
    for name in ["Glass", "Glass Card"] {
        match compile_clause(&card_with_enhancement(name)) {
            Op::StandardCardIs { enhancement, .. } => assert_eq!(enhancement, Some(14859)),
            other => panic!("unexpected op {other:?}"),
        }
    }
    match compile_clause(&card_with_enhancement("Steel")) {
        Op::StandardCardIs { enhancement, .. } => assert_eq!(enhancement, Some(51859)),
        other => panic!("unexpected op {other:?}"),
    }
}

fn plain_card(ante: u8) -> Clause {
    Clause::AnteStandardCardIs {
        ante,
        max_packs: 2,
        base: "Ace of Spades".into(),
        enhancement: None,
        edition: None,
        seal: None,
    }
}

#[test]
fn any_of_estimates_round_as_binary64() {
    // 3 x 0.07 rounds to 0.21000000000000002 while 7 x 0.03 rounds to 0.21:
    // the group of seven jokers is the rarer one and goes first.
    let cards = Clause::AnyOf { clauses: (1..=3).map(plain_card).collect() };
    let jokers = Clause::AnyOf { clauses: (1..=7).map(|a| joker(a, "Blueprint", None, None)).collect() };
    let f = Filter { clauses: vec![cards, jokers], partial: false, min_score: None };
    let c = f.compile();
    match &c.ops[0] {
        Op::AnyOf { ops } => assert_eq!(ops.len(), 7),
        _ => panic!(),
    }
    match &c.ops[1] {
        Op::AnyOf { ops } => assert_eq!(ops.len(), 3),
        _ => panic!(),
    }
    assert!(0.07f64 * 3.0 > 0.03f64 * 7.0);
}
