use balatro_seed_engine::derive::{Edition, PackContents, Seal, ShopItemType, ShopSlot, StandardCard, Stickers};
use balatro_seed_engine::filter::{compile_clause, Clause, Op};
use balatro_seed_engine::probe::{AnyOfProbe, Derivation, Derived, OpProbe, Probe};

fn joker_slot(name: &'static str) -> ShopSlot {
    ShopSlot {
        kind: ShopItemType::Joker,
        item: name,
        edition: Edition::NoEdition,
        stickers: Stickers { eternal: false, perishable: false, rental: false },
    }
}

fn verdict(p: Probe) -> Option<bool> {
    match p {
        Probe::Verdict(v) => Some(v),
        Probe::Need(_) => None,
    }
}

#[test]
fn joker_in_any_slot_stops_at_first_hit() {
    let op = compile_clause(&Clause::AnteShopHasJoker {
        ante: 2,
        slot: 255,
        joker: "Blueprint".into(),
        edition: None,
        sticker: None,
    });
    let (mut p, a) = OpProbe::start(&op);
    assert_eq!(p.ante(), 2);
    assert!(matches!(a, Probe::Need(Derivation::ShopItem)));
    for _ in 0..3 {
        assert_eq!(verdict(p.feed(Derived::Slot(joker_slot("Joker")))), None);
    }
    assert_eq!(verdict(p.feed(Derived::Slot(joker_slot("Blueprint")))), Some(true));
}

#[test]
fn joker_in_one_slot_only_looks_at_that_slot() {
    let op = Op::HasJoker { ante: 1, slot: 1, joker_id: 41832, edition: None, sticker: None };
    let (mut p, _) = OpProbe::start(&op);
    // A hit in slot 0 does not count; slot 1 decides.
    assert_eq!(verdict(p.feed(Derived::Slot(joker_slot("Blueprint")))), None);
    assert_eq!(verdict(p.feed(Derived::Slot(joker_slot("Joker")))), Some(false));
}

#[test]
fn any_slot_scan_gives_up_after_sixteen() {
    let op = Op::HasJoker { ante: 1, slot: 255, joker_id: 41832, edition: None, sticker: None };
    let (mut p, _) = OpProbe::start(&op);
    for _ in 0..15 {
        assert_eq!(verdict(p.feed(Derived::Slot(joker_slot("Joker")))), None);
    }
    assert_eq!(verdict(p.feed(Derived::Slot(joker_slot("Joker")))), Some(false));
}

#[test]
fn tag_position_one_is_the_second_tag() {
    let op = compile_clause(&Clause::AnteTagIs { ante: 1, position: 1, tag: "Blueprint".into() });
    let (mut p, _) = OpProbe::start(&op);
    assert!(matches!(p.feed(Derived::Name("Blueprint")), Probe::Need(Derivation::Tag)));
    assert_eq!(verdict(p.feed(Derived::Name("Blueprint"))), Some(true));
    let (mut q, _) = OpProbe::start(&op);
    q.feed(Derived::Name("x"));
    assert_eq!(verdict(q.feed(Derived::Name("y"))), Some(false));
}

#[test]
fn boss_and_voucher_take_one_draw() {
    let op = compile_clause(&Clause::AnteBossIs { ante: 3, boss: "TheHook".into() });
    let (mut p, a) = OpProbe::start(&op);
    assert!(matches!(a, Probe::Need(Derivation::Boss)));
    assert_eq!(verdict(p.feed(Derived::Name("TheHook"))), Some(true));
    let op = compile_clause(&Clause::VoucherIs { ante: 1, voucher: "Overstock".into() });
    let (mut p, a) = OpProbe::start(&op);
    assert!(matches!(a, Probe::Need(Derivation::Voucher)));
    assert_eq!(verdict(p.feed(Derived::Name("Hone"))), Some(false));
}

#[test]
fn pack_index_opens_the_indexed_pack() {
    let op = compile_clause(&Clause::AntePackContains { ante: 1, pack_index: 1, card: "The Soul".into() });
    let (mut p, _) = OpProbe::start(&op);
    assert!(matches!(p.feed(Derived::Name("Arcana Pack")), Probe::Need(Derivation::Pack)));
    match p.feed(Derived::Name("Spectral Pack")) {
        Probe::Need(Derivation::OpenPackDetailed(name)) => assert_eq!(name, "Spectral Pack"),
        other => panic!("unexpected {other:?}"),
    }
    let contents = PackContents::Spectrals(vec!["Wraith", "The Soul"]);
    assert_eq!(verdict(p.feed(Derived::Contents(contents))), Some(true));
}

#[test]
fn empty_pack_walk_is_false_at_once() {
    let op = Op::AnyPackContains { ante: 1, max_packs: 0, card_id: 1 };
    let (_, a) = OpProbe::start(&op);
    assert_eq!(verdict(a), Some(false));
}

#[test]
fn soul_walk_resolves_only_packs_with_the_soul() {
    let op = compile_clause(&Clause::AnteSoulIs { ante: 2, max_packs: 2, joker: "Perkeo".into() });
    let (mut p, _) = OpProbe::start(&op);
    assert!(matches!(p.feed(Derived::Name("Arcana Pack")), Probe::Need(Derivation::OpenPack("Arcana Pack"))));
    // No Soul: on to the next pack.
    assert!(matches!(p.feed(Derived::Contents(PackContents::Tarots(vec!["The Fool"]))), Probe::Need(Derivation::Pack)));
    p.feed(Derived::Name("Spectral Pack"));
    assert!(matches!(
        p.feed(Derived::Contents(PackContents::Spectrals(vec!["The Soul"]))),
        Probe::Need(Derivation::SoulLegendary)
    ));
    // Wrong legendary on the last pack: false.
    assert_eq!(verdict(p.feed(Derived::Name("Canio"))), Some(false));
}

#[test]
fn wraith_walk_finds_its_rare() {
    let op = compile_clause(&Clause::AnteWraithIs { ante: 1, max_packs: 3, joker: "Blueprint".into() });
    let (mut p, _) = OpProbe::start(&op);
    p.feed(Derived::Name("Spectral Pack"));
    assert!(matches!(
        p.feed(Derived::Contents(PackContents::Spectrals(vec!["Wraith"]))),
        Probe::Need(Derivation::WraithRare)
    ));
    assert_eq!(verdict(p.feed(Derived::Name("Blueprint"))), Some(true));
}

#[test]
fn standard_card_walk_checks_every_card() {
    let op = compile_clause(&Clause::AnteStandardCardIs {
        ante: 1,
        max_packs: 2,
        base: String::new(),
        enhancement: None,
        edition: None,
        seal: Some("gold".into()),
    });
    let (mut p, _) = OpProbe::start(&op);
    p.feed(Derived::Name("Standard Pack"));
    let plain = StandardCard { base: "2 of Clubs", enhancement: None, edition: Edition::NoEdition, seal: Seal::NoSeal };
    let sealed = StandardCard { seal: Seal::Gold, ..plain };
    assert!(matches!(p.feed(Derived::Contents(PackContents::StandardCards(vec![plain]))), Probe::Need(Derivation::Pack)));
    p.feed(Derived::Name("Jumbo Standard Pack"));
    assert_eq!(verdict(p.feed(Derived::Contents(PackContents::StandardCards(vec![plain, sealed])))), Some(true));
}

#[test]
fn empty_any_of_is_false_at_once() {
    let ops: Vec<Op> = Vec::new();
    let (_, a) = AnyOfProbe::start_any(&ops);
    assert_eq!(verdict(a), Some(false));
}

#[test]
fn any_of_holds_at_first_leaf_that_holds() {
    // Boss, then a nested AnyOf of (walk over no packs, voucher), then a tag.
    let ops = vec![
        Op::BossIs { ante: 1, boss_id: 14437 },
        Op::AnyOf {
            ops: vec![
                Op::AnyPackContains { ante: 1, max_packs: 0, card_id: 1 },
                Op::VoucherIs { ante: 2, voucher_id: 36889 },
            ],
        },
        Op::TagIs { ante: 1, position: 0, tag_id: 41832 },
    ];
    let (mut p, a) = AnyOfProbe::start_any(&ops);
    assert_eq!(p.leaf_index(), 0);
    assert!(matches!(a, Probe::Need(Derivation::Boss)));
    // The boss misses; the empty pack walk is skipped; the voucher is next.
    let a = p.feed_any(Derived::Name("TheWall"));
    assert_eq!(p.leaf_index(), 2);
    assert_eq!(p.ante(), 2);
    assert!(matches!(a, Probe::Need(Derivation::Voucher)));
    assert_eq!(verdict(p.feed_any(Derived::Name("Overstock"))), Some(true));
    assert_eq!(p.leaf_index(), 2);
}

#[test]
fn any_of_is_false_once_every_leaf_missed() {
    let ops = vec![
        Op::BossIs { ante: 1, boss_id: 14437 },
        Op::TagIs { ante: 1, position: 0, tag_id: 41832 },
    ];
    let (mut p, _) = AnyOfProbe::start_any(&ops);
    assert_eq!(verdict(p.feed_any(Derived::Name("TheWall"))), None);
    assert_eq!(p.leaf_index(), 1);
    assert!(matches!(p.feed_any(Derived::Name("Joker")), Probe::Verdict(false)));
    assert_eq!(p.leaf_index(), 2);
}

/// Drives an `AnyOf` to its verdict, answering each leaf from its op alone
/// (every leaf runs on a fresh copy of the same run).
fn drive_any_of(ops: &Vec<Op>, answer: impl Fn(&Derivation) -> Derived) -> bool {
    let (mut p, mut a) = AnyOfProbe::start_any(ops);
    loop {
        match a {
            Probe::Verdict(v) => return v,
            Probe::Need(d) => a = p.feed_any(answer(&d)),
        }
    }
}

#[test]
fn any_of_answer_does_not_depend_on_op_order() {
    let boss = || Op::BossIs { ante: 1, boss_id: 14437 };
    let tag = || Op::TagIs { ante: 1, position: 0, tag_id: 41832 };
    let voucher = || Op::VoucherIs { ante: 1, voucher_id: 36889 };
    // The seed's run: boss TheHook (hit), first tag Joker (miss), voucher Clearance (miss).
    let run = |d: &Derivation| match d {
        Derivation::Boss => Derived::Name("TheHook"),
        Derivation::Tag => Derived::Name("Joker"),
        _ => Derived::Name("Clearance"),
    };
    let orders = [
        vec![boss(), tag(), voucher()],
        vec![tag(), voucher(), boss()],
        vec![voucher(), Op::AnyOf { ops: vec![tag(), boss()] }],
    ];
    for ops in &orders {
        assert!(drive_any_of(ops, run));
    }
    let misses = [vec![tag(), voucher()], vec![voucher(), tag()]];
    for ops in &misses {
        assert!(!drive_any_of(ops, run));
    }
}
