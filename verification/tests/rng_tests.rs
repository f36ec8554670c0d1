use balatro_seed_engine::rng::LuaRandom;
use balatro_seed_engine::v3::diagnostic::run_cpu;
use balatro_seed_engine::v3::lua_random::LuaRandomDf;

#[test]
fn diagnostic_is_deterministic() {
    let a = run_cpu(42, 1000, 256);
    let b = run_cpu(42, 1000, 256);
    assert_eq!(a, b);
}

#[test]
fn diagnostic_diverges_per_seed() {
    let r = run_cpu(0, 100, 256);
    let unique: std::collections::HashSet<u32> = r.iter().copied().collect();
    assert!(unique.len() >= 200, "expected mostly unique outputs, got {}/256", unique.len());
}

#[test]
fn diagnostic_exact_values() {
    assert_eq!(run_cpu(0, 3, 4), vec![289554129, 302959546, 1700599526, 2747746861]);
    assert_eq!(run_cpu(42, 1000, 2), vec![284258382, 1765163275]);
    assert_eq!(run_cpu(7, 0, 3), vec![0, 0, 0]);
    assert!(run_cpu(5, 10, 0).is_empty());
}

#[test]
fn seeding_raises_lanes_and_warms_up() {
    // Lanes 0,1,2,3 are below their floors 2, 64, 512, 131072.
    let mut r = LuaRandom::from_seed_bits([0, 1, 2, 3]);
    let mut d = LuaRandomDf::from_seed_bits([0, 1, 2, 3]);
    assert_eq!(d.state, [0xe0000000a00000, 0x5000000000e000, 0x1000001020000, 0x4200000080008]);
    assert_eq!(r.rand_int(), 0x4a00c8088400dde);
    assert_eq!(d.rand_int(), 0x4a00c8088400dde);
}

#[test]
fn double_bits_sit_in_one_to_two() {
    let mut r = LuaRandom::from_seed_bits([0, 1, 2, 3]);
    assert_eq!(r.next_double_bits(), 0x3ff00c8088400dde);
    for _ in 0..1000 {
        let b = r.next_double_bits();
        assert_eq!(b >> 52, 0x3ff);
    }
}

#[test]
fn same_bits_same_stream() {
    let bits = [0x3FE0000000000000, 0x4005, 0x401, 0x4009];
    let mut a = LuaRandom::from_seed_bits(bits);
    let mut b = LuaRandom::from_seed_bits(bits);
    for _ in 0..100 {
        assert_eq!(a.rand_int(), b.rand_int());
    }
    let d = LuaRandomDf::from_seed_bits(bits);
    assert_eq!(d.state, [0x17f40000180c00, 0x5000000000e00014, 0x2000002040000, 0x4200000080008]);
}
