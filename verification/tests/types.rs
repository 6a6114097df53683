use uniswap_arb_bot::config::parse_u256_dec;
use uniswap_arb_bot::text::i128_to_string;
use uniswap_arb_bot::types::{DecimalError, H256, U256};

const MAX: &str = "115792089237316195423570985008687907853269984665640564039457584007913129639935";
const LIMIT: &str = "115792089237316195423570985008687907853269984665640564039457584007913129639936";

#[test]
fn decimal_amounts_are_read() {
    assert_eq!(parse_u256_dec("0").expect("amount"), U256::zero());
    assert_eq!(parse_u256_dec("").expect("amount"), U256::zero());
    assert_eq!(parse_u256_dec("007").expect("amount"), U256::from(7_u64));
    assert_eq!(
        parse_u256_dec("1000000000000000000").expect("amount"),
        U256::from(1_000_000_000_000_000_000_u64)
    );
    assert_eq!(parse_u256_dec(MAX).expect("amount"), U256([u64::MAX; 4]));
}

#[test]
fn bad_amounts_are_explained() {
    let message = |value: &str| parse_u256_dec(value).expect_err("amount").message();
    assert_eq!(
        message("1.5"),
        "invalid decimal U256 1.5: a character is not in the range 0-9"
    );
    assert_eq!(
        message("-1"),
        "invalid decimal U256 -1: a character is not in the range 0-9"
    );
    assert_eq!(
        message("１"),
        "invalid decimal U256 １: a character is not in the range 0-9"
    );
    assert_eq!(
        message(LIMIT),
        format!("invalid decimal U256 {LIMIT}: the number is too large for the type")
    );
    // Too large comes first where the digits before the stray character are too many.
    let long = format!("{LIMIT}x");
    assert_eq!(
        message(&long),
        format!("invalid decimal U256 {long}: the number is too large for the type")
    );
    let short = format!("{MAX}x");
    assert_eq!(
        message(&short),
        format!("invalid decimal U256 {short}: a character is not in the range 0-9")
    );
    assert_eq!(
        DecimalError::InvalidLength.message(),
        "the number is too large for the type"
    );
}

#[test]
fn amounts_are_written_as_they_are_read() {
    for text in ["0", "7", "10", "18446744073709551616", MAX] {
        assert_eq!(parse_u256_dec(text).expect("amount").to_dec_string(), text);
    }
}

#[test]
fn amounts_compare_by_value() {
    let small = U256([u64::MAX, u64::MAX, u64::MAX, 0]);
    let large = U256([0, 0, 0, 1]);
    assert!(small < large);
    assert!(large > small);
    assert!(small <= small);
    assert!(U256([1, 2, 3, 4]) == U256([1, 2, 3, 4]));
    assert!(U256([1, 2, 3, 4]) != U256([1, 2, 3, 5]));
    assert_eq!(U256::from_u128(u128::MAX).low_u128(), u128::MAX);
    assert_eq!(U256([5, 6, 7, 8]).low_u128(), 5 + (6 << 64));
}

#[test]
fn signed_numbers_are_written_in_decimal() {
    assert_eq!(i128_to_string(0), "0");
    assert_eq!(i128_to_string(-1), "-1");
    assert_eq!(i128_to_string(1_234_567_890), "1234567890");
    assert_eq!(i128_to_string(i128::MAX), i128::MAX.to_string());
    assert_eq!(i128_to_string(i128::MIN), i128::MIN.to_string());
}

#[test]
fn the_zero_identifier_is_all_zero() {
    assert_eq!(H256::zero().0, [0u8; 32]);
}
