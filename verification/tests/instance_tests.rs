use balatro_seed_engine::instance::{Buf, NodeCache, NodeKey, RandomSource, RandomType};

#[test]
fn cache_key_rendering() {
    let k = NodeKey::with_ante(RandomType::JokerRarity, RandomSource::Shop, 1);
    assert_eq!(k.render(), "raritysho1");
}

#[test]
fn render_covers_every_part() {
    assert_eq!(NodeKey::simple(RandomType::Boss).render(), "boss");
    assert_eq!(NodeKey::with_ante(RandomType::Tags, RandomSource::Null, 12).render(), "Tag12");
    assert_eq!(NodeKey::with_ante(RandomType::Voucher, RandomSource::Shop, -3).render(), "Vouchersho-3");
    // Resample 0 renders nothing; n > 0 renders n + 1.
    assert_eq!(NodeKey::with_resample(RandomType::JokerCommon, RandomSource::Buffoon, 2, 0).render(), "Joker1buf2");
    assert_eq!(
        NodeKey::with_resample(RandomType::JokerCommon, RandomSource::Buffoon, 2, 4).render(),
        "Joker1buf2_resample5"
    );
    assert_eq!(
        NodeKey::with_ante(RandomType::Boss, RandomSource::Null, i32::MIN).render(),
        "boss-2147483648"
    );
}

#[test]
fn keys_match_the_game() {
    assert_eq!(RandomType::Eternal.key(), "stake_shop_joker_eternal");
    assert_eq!(RandomType::Soul.key(), "soul_");
    assert_eq!(RandomSource::PurpleSeal.key(), RandomSource::EightBall.key());
    assert_eq!(RandomSource::Null.key(), "");
}

#[test]
fn cache_finds_what_it_gave_out() {
    let mut c = NodeCache::new();
    let a = NodeKey::with_ante(RandomType::JokerRarity, RandomSource::Shop, 1);
    let b = NodeKey::with_ante(RandomType::JokerRarity, RandomSource::Shop, 2);
    assert_eq!(c.find(&a), None);
    assert_eq!(c.claim(a), 0);
    assert_eq!(c.claim(b), 1);
    assert_eq!(c.find(&a), Some(0));
    assert_eq!(c.find(&b), Some(1));
}

#[test]
fn full_cache_reuses_last_slot() {
    let mut c = NodeCache::new();
    for i in 0..64 {
        let k = NodeKey::with_ante(RandomType::Boss, RandomSource::Null, i);
        assert_eq!(c.claim(k), i as usize);
    }
    let extra = NodeKey::with_ante(RandomType::Boss, RandomSource::Null, 100);
    assert_eq!(c.claim(extra), 63);
    // The overwritten slot is no longer searched, and the key it held is gone.
    assert_eq!(c.find(&extra), None);
    assert_eq!(c.find(&NodeKey::with_ante(RandomType::Boss, RandomSource::Null, 63)), None);
    assert_eq!(c.find(&NodeKey::with_ante(RandomType::Boss, RandomSource::Null, 62)), Some(62));
    let again = NodeKey::with_ante(RandomType::Boss, RandomSource::Null, 101);
    assert_eq!(c.claim(again), 63);
    assert_eq!(c.find(&again), Some(63));
}

#[test]
fn buf_keeps_at_most_eight_bytes() {
    let mut b = Buf::new();
    assert_eq!(b.len(), 0);
    b.write("PHRAYJUS1");
    assert_eq!(b.len(), 8);
    assert_eq!(b.as_str(), "PHRAYJUS");
    b.write("AB");
    assert_eq!(b.as_str(), "AB");
}

#[test]
fn type_keys_are_distinct_and_nonempty() {
    let all = [RandomType::JokerCommon, RandomType::JokerUncommon, RandomType::JokerRare, RandomType::JokerLegendary, RandomType::JokerRarity, RandomType::JokerEdition, RandomType::Misprint, RandomType::StandardHasEnhancement, RandomType::Enhancement, RandomType::Card, RandomType::StandardEdition, RandomType::StandardHasSeal, RandomType::StandardSeal, RandomType::ShopPack, RandomType::Tarot, RandomType::Spectral, RandomType::Tags, RandomType::ShuffleNewRound, RandomType::CardType, RandomType::Planet, RandomType::LuckyMult, RandomType::LuckyMoney, RandomType::Sigil, RandomType::Ouija, RandomType::WheelOfFortune, RandomType::GrosMichel, RandomType::Cavendish, RandomType::Voucher, RandomType::VoucherTag, RandomType::OrbitalTag, RandomType::Soul, RandomType::Erratic, RandomType::Eternal, RandomType::Perishable, RandomType::Rental, RandomType::EternalPerishable, RandomType::RentalPack, RandomType::EternalPerishablePack, RandomType::Boss];
    assert_eq!(all.len(), 39);
    let keys: std::collections::HashSet<&str> = all.iter().map(|t| t.key()).collect();
    assert_eq!(keys.len(), 39);
    assert!(all.iter().all(|t| !t.key().is_empty()));
}

#[test]
fn only_eight_ball_and_purple_seal_share_a_source_key() {
    let all = [RandomSource::Shop, RandomSource::Emperor, RandomSource::HighPriestess, RandomSource::Judgement, RandomSource::Wraith, RandomSource::Arcana, RandomSource::Celestial, RandomSource::Spectral, RandomSource::Standard, RandomSource::Buffoon, RandomSource::Vagabond, RandomSource::Superposition, RandomSource::EightBall, RandomSource::Seance, RandomSource::SixthSense, RandomSource::TopUp, RandomSource::RareTag, RandomSource::UncommonTag, RandomSource::BlueSeal, RandomSource::PurpleSeal, RandomSource::Soul, RandomSource::RiffRaff, RandomSource::Cartomancer, RandomSource::Null];
    for (i, a) in all.iter().enumerate() {
        assert_eq!(a.key().is_empty(), *a == RandomSource::Null);
        for b in &all[i + 1..] {
            let shared = (*a == RandomSource::EightBall && *b == RandomSource::PurpleSeal)
                || (*a == RandomSource::PurpleSeal && *b == RandomSource::EightBall);
            assert_eq!(a.key() == b.key(), shared);
        }
    }
    assert_eq!(RandomSource::Shop.key(), "sho");
}
