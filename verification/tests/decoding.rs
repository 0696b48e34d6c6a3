use base36::{decode, encode, DecodeError};

#[test]
fn decode_known_values() {
    assert_eq!(decode("0"), Ok(0));
    assert_eq!(decode("9IX"), Ok(12345));
    assert_eq!(decode("-7MC"), Ok(-9876));
    assert_eq!(decode("GC0UY9"), Ok(987654321));
    assert_eq!(decode("ZIK0ZJ"), Ok(2147483647));
    assert_eq!(decode("-ZIK0ZK"), Ok(-2147483648));
}

#[test]
fn decode_single_digits() {
    let alphabet = "0123456789ABCDEFGHIJKLMNOPQRSTUVWXYZ";
    for (value, symbol) in alphabet.chars().enumerate() {
        assert_eq!(decode(&symbol.to_string()), Ok(value as i32));
    }
}

#[test]
fn decode_accepts_leading_zeros_and_signed_zero() {
    assert_eq!(decode("0009IX"), Ok(12345));
    assert_eq!(decode("-007MC"), Ok(-9876));
    assert_eq!(decode("-0"), Ok(0));
    assert_eq!(decode("0000000000000000000000000000ZIK0ZJ"), Ok(i32::MAX));
}

#[test]
fn decode_rejects_empty_text() {
    assert_eq!(decode(""), Err(DecodeError::InvalidFormat));
}

#[test]
fn decode_rejects_lone_sign() {
    assert_eq!(decode("-"), Err(DecodeError::MissingMagnitude));
}

#[test]
fn decode_rejects_malformed_text() {
    for text in ["9ix", "9I X", "&/98@", "--7MC", "7-MC", "7MC-", "+7MC", " 9IX", "9IX\n", "-z"] {
        assert_eq!(decode(text), Err(DecodeError::InvalidFormat), "{:?}", text);
    }
}

#[test]
fn decode_rejects_text_beyond_ascii() {
    for text in ["\u{e9}", "9I\u{d7}", "-\u{ff10}", "\u{2212}7MC"] {
        assert_eq!(decode(text), Err(DecodeError::InvalidFormat), "{:?}", text);
    }
}

#[test]
fn decode_rejects_format_before_range() {
    assert_eq!(decode("ZZZZZZZZZZZZZZZZ!"), Err(DecodeError::InvalidFormat));
}

#[test]
fn decode_rejects_out_of_range() {
    assert_eq!(decode("ZIK0ZK"), Err(DecodeError::OutOfRange));
    assert_eq!(decode("-ZIK0ZL"), Err(DecodeError::OutOfRange));
    assert_eq!(decode("1000000"), Err(DecodeError::OutOfRange));
    assert_eq!(decode("-1000000"), Err(DecodeError::OutOfRange));
    assert_eq!(decode("ZZZZZZZZZZZZZZZZZZZZZZZZZZZZZZZZZZZZZZZZ"), Err(DecodeError::OutOfRange));
    assert_eq!(decode("0ZIK0ZK"), Err(DecodeError::OutOfRange));
}

#[test]
fn decode_never_yields_invalid_character() {
    for text in ["", "-", "a", "9I X", "\u{e9}", "ZIK0ZK", "@", "[", "/", ":"] {
        assert!(!matches!(decode(text), Err(DecodeError::InvalidCharacter(_))));
        assert!(decode(text).is_err());
    }
}

#[test]
fn decode_inverts_encode() {
    let mut number: i64 = i64::from(i32::MIN);
    while number <= i64::from(i32::MAX) {
        let n = number as i32;
        assert_eq!(decode(&encode(n)), Ok(n));
        number += 7_654_321;
    }
    for n in [i32::MIN, i32::MIN + 1, -36, -1, 0, 1, 35, 36, i32::MAX - 1, i32::MAX] {
        assert_eq!(decode(&encode(n)), Ok(n));
    }
}

#[test]
fn encode_inverts_decode_on_canonical_text() {
    for text in ["0", "1", "-1", "Z", "10", "-ZZ", "9IX", "-7MC", "ZIK0ZJ", "-ZIK0ZK"] {
        assert_eq!(encode(decode(text).unwrap()), text);
    }
}
