use balatro_seed_engine::binary64::round_to_double;

#[test]
fn small_integers_are_exact() {
    assert_eq!(round_to_double(1), (1u64 << 52, -52));
    assert_eq!(round_to_double(3), (6755399441055744, -51));
    assert_eq!(round_to_double(1u128 << 53), (1u64 << 52, 1));
}

#[test]
fn rounding_is_to_nearest_with_ties_to_even() {
    let two53 = 1u128 << 53;
    // Ties: 2^53 + 1 goes down to the even 2^53, 2^53 + 3 up to 2^53 + 4.
    assert_eq!(round_to_double(two53 + 1), (1u64 << 52, 1));
    assert_eq!(round_to_double(two53 + 3), ((1u64 << 52) + 2, 1));
    // Above a tie rounds up; a carry past 53 bits renormalises.
    assert_eq!(round_to_double((1u128 << 55) + 5), ((1u64 << 52) + 1, 3));
    assert_eq!(round_to_double((1u128 << 54) - 1), (1u64 << 52, 2));
    // The significand product behind 3 x 0.07 in binary64.
    assert_eq!(round_to_double(5044031582654956u128 * 3), (7566047373982434, 1));
}
