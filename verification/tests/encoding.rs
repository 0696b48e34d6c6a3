use base36::{encode, Base36};

#[test]
fn test_from_zero() {
    let actual = Base36::from(0).unwrap();

    assert_eq!(actual.value(), "0");
}

#[test]
fn test_from_positive_number() {
    let actual = Base36::from(12345).unwrap();

    assert_eq!(actual.value(), "9IX");
}

#[test]
fn test_from_negative_number() {
    let actual = Base36::from(-9876).unwrap();

    assert_eq!(actual.value(), "-7MC");
}

#[test]
fn test_from_large_number() {
    let actual = Base36::from(987654321).unwrap();

    assert_eq!(actual.value(), "GC0UY9");
}

#[test]
fn test_from_max_i32() {
    let actual = Base36::from(i32::MAX).unwrap();

    assert_eq!(actual.value(), "ZIK0ZJ");
}

#[test]
fn test_from_min_i32() {
    let actual = Base36::from(i32::MIN).unwrap();

    assert_eq!(actual.value(), "-ZIK0ZK");
}

#[test]
fn encode_zero() {
    assert_eq!(encode(0), "0");
}

#[test]
fn encode_known_values() {
    assert_eq!(encode(12345), "9IX");
    assert_eq!(encode(-9876), "-7MC");
    assert_eq!(encode(987654321), "GC0UY9");
    assert_eq!(encode(2147483647), "ZIK0ZJ");
    assert_eq!(encode(-2147483648), "-ZIK0ZK");
}

#[test]
fn encode_single_digits() {
    let alphabet = "0123456789ABCDEFGHIJKLMNOPQRSTUVWXYZ";
    for (value, symbol) in alphabet.chars().enumerate() {
        assert_eq!(encode(value as i32), symbol.to_string());
    }
    assert_eq!(encode(-1), "-1");
    assert_eq!(encode(-35), "-Z");
}

#[test]
fn encode_at_place_boundaries() {
    assert_eq!(encode(36), "10");
    assert_eq!(encode(-36), "-10");
    assert_eq!(encode(1295), "ZZ");
    assert_eq!(encode(1296), "100");
    assert_eq!(encode(46656), "1000");
    assert_eq!(encode(360), "A0");
}

#[test]
fn encode_agrees_with_from() {
    for number in [0, 1, -1, 35, 36, -37, 12345, -9876, i32::MAX, i32::MIN] {
        let numeral = Base36::from(number).unwrap();
        assert_eq!(numeral.value(), encode(number));
    }
}

#[test]
fn encode_is_canonical() {
    for number in [0, 7, -7, 36, -36, 1296, 40000, -40000, 987654321, i32::MAX, i32::MIN] {
        let text = encode(number);
        assert_eq!(text.starts_with('-'), number < 0);
        let magnitude = text.strip_prefix('-').unwrap_or(&text);
        assert!(!magnitude.is_empty());
        assert!(magnitude.chars().all(|c| c.is_ascii_digit() || c.is_ascii_uppercase()));
        assert!(!magnitude.starts_with('0') || text == "0");
    }
}
