use balatro_seed_engine::heapless;
use balatro_seed_engine::seed::{Seed, NUM_CHARS, SEED_CHARS};
use balatro_seed_engine::state::seed_as_str;
use balatro_seed_engine::sweep::synth_seed;

#[test]
fn round_trip() {
    let s = Seed::parse("PHRAYJUS").unwrap();
    assert_eq!(s.as_str().as_str(), "PHRAYJUS");
}

#[test]
fn increment_wraps() {
    let mut s = Seed::parse("Z").unwrap();
    s.increment();
    assert_eq!(s.as_str().as_str(), "11");
}

#[test]
fn rank_round_trip() {
    for rank in [0u64, 1, 34, 35, 100, 1_000_000] {
        let s = Seed::from_rank(rank, 6);
        assert_eq!(s.rank(), rank, "rank round-trip broke at {rank}");
    }
}

#[test]
fn alphabet_is_digits_then_letters() {
    assert_eq!(NUM_CHARS, 35);
    assert_eq!(&SEED_CHARS[..], b"123456789ABCDEFGHIJKLMNOPQRSTUVWXYZ");
}

#[test]
fn parse_rejects_bad_seeds() {
    assert!(Seed::parse("").is_none());
    assert!(Seed::parse("123456789").is_none());
    assert!(Seed::parse("ABC0").is_none());
    assert!(Seed::parse("abc").is_none());
    assert!(Seed::parse("AB CD").is_none());
    assert!(Seed::parse("12345678").is_some());
}

#[test]
fn from_rank_digits_are_base35() {
    // 35 = "21" at length 2; rank 0 = "1"; rank 34 = "Z".
    assert_eq!(Seed::from_rank(0, 1).as_str().as_str(), "1");
    assert_eq!(Seed::from_rank(34, 1).as_str().as_str(), "Z");
    assert_eq!(Seed::from_rank(35, 2).as_str().as_str(), "21");
    assert_eq!(Seed::from_rank(35, 3).as_str().as_str(), "121");
    // Higher digits are dropped: 35 at length 1 is rank 0.
    assert_eq!(Seed::from_rank(35, 1).rank(), 0);
    assert_eq!(Seed::parse("ZZ").unwrap().rank(), 35 * 35 - 1);
    assert_eq!(Seed::parse("PHRAYJUS").unwrap(), Seed::from_rank(Seed::parse("PHRAYJUS").unwrap().rank(), 8));
}

#[test]
fn increment_adds_one_to_rank() {
    let mut s = Seed::parse("1Z").unwrap();
    let r = s.rank();
    s.increment();
    assert_eq!(s.as_str().as_str(), "21");
    assert_eq!(s.rank(), r + 1);
    let mut t = Seed::parse("ZZZ").unwrap();
    t.increment();
    assert_eq!(t.as_str().as_str(), "1111");
    assert_eq!(t.rank(), 0);
}

#[test]
fn final_seed_is_detected() {
    assert!(Seed::parse("ZZZZZZZZ").unwrap().is_final());
    assert!(!Seed::parse("ZZZZZZZ").unwrap().is_final());
    assert!(!Seed::parse("ZZZZZZZY").unwrap().is_final());
}

#[test]
fn write_to_fills_front_of_buffer() {
    let s = Seed::parse("AB3").unwrap();
    let mut buf = [b'.'; 8];
    let n = s.write_to(&mut buf);
    assert_eq!(n, 3);
    assert_eq!(&buf, b"AB3.....");
}

#[test]
fn heapless_string_refuses_past_capacity() {
    let mut s = heapless::String::<2>::new();
    assert!(s.push('A').is_ok());
    assert!(s.push('B').is_ok());
    assert!(s.push('C').is_err());
    assert_eq!(s.as_str(), "AB");
}

#[test]
fn seed_as_str_takes_prefix() {
    let buf = *b"XYZ12345";
    assert_eq!(seed_as_str(&buf, 3), "XYZ");
    assert_eq!(seed_as_str(&buf, 0), "");
}

#[test]
fn sweep_seeds_are_fixed_and_parse() {
    assert_eq!(synth_seed(0), "2QJC2QJC");
    assert_eq!(synth_seed(1), "R2THGL1J");
    assert_eq!(synth_seed(2), "1OODYBVY");
    assert_eq!(synth_seed(12345), "DGXMM4RC");
    assert_eq!(synth_seed(u64::MAX), "SE55IA6K");
    for i in 0..50u64 {
        let s = synth_seed(i);
        assert_eq!(Seed::parse(&s).unwrap().as_str().as_str(), s);
    }
}

#[test]
fn rank_order_is_rendered_order() {
    let seeds = ["1111", "1112", "119Z", "11A1", "ZZZY", "ZZZZ", "PHRA"];
    for a in seeds {
        for b in seeds {
            let (x, y) = (Seed::parse(a).unwrap(), Seed::parse(b).unwrap());
            assert_eq!(x.rank() < y.rank(), a.as_bytes() < b.as_bytes());
            assert_eq!(x.rank() == y.rank(), x == y);
        }
    }
    assert_eq!(Seed::parse("ZZZZ").unwrap().rank(), 35u64.pow(4) - 1);
}

#[test]
fn string_round_trip_both_ways() {
    for text in ["1", "Z", "9A", "PHRAYJUS", "ZZZZZZZZ"] {
        let seed = Seed::parse(text).unwrap();
        let rendered = seed.as_str();
        assert_eq!(rendered.as_str(), text);
        assert_eq!(Seed::parse(&rendered.as_str()), Some(seed));
    }
}
