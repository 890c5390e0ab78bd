use graph_rank::decimal::{signed_text, unsigned_text};

#[test]
fn single_digits() {
    let expected = ["0", "1", "2", "3", "4", "5", "6", "7", "8", "9"];
    for n in 0..10u64 {
        assert_eq!(unsigned_text(n), expected[n as usize]);
    }
}

#[test]
fn several_digits_without_leading_zeros() {
    assert_eq!(unsigned_text(10), "10");
    assert_eq!(unsigned_text(42), "42");
    assert_eq!(unsigned_text(100), "100");
    assert_eq!(unsigned_text(9001), "9001");
    assert_eq!(unsigned_text(1234567890), "1234567890");
}

#[test]
fn the_greatest_unsigned_number() {
    assert_eq!(unsigned_text(u64::MAX), "18446744073709551615");
}

#[test]
fn unsigned_text_agrees_with_the_standard_library() {
    for n in (0..5000u64).chain([u64::MAX - 1, 1 << 40, 999_999_999_999]) {
        assert_eq!(unsigned_text(n), n.to_string());
    }
}

#[test]
fn negative_numbers_carry_a_sign() {
    assert_eq!(signed_text(-1), "-1");
    assert_eq!(signed_text(-10), "-10");
    assert_eq!(signed_text(-305), "-305");
}

#[test]
fn zero_and_positive_numbers_carry_none() {
    assert_eq!(signed_text(0), "0");
    assert_eq!(signed_text(12), "12");
}

#[test]
fn the_ends_of_the_signed_range() {
    assert_eq!(signed_text(i64::MIN), "-9223372036854775808");
    assert_eq!(signed_text(i64::MAX), "9223372036854775807");
}
