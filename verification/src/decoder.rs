//! From a numeral back to its number.

use vstd::prelude::*;
use vstd::string::*;
use crate::alphabet::{is_symbol, lemma_value_symbol, position_of, ASCII_MINUS, RADIX};
use crate::numeral::{
    all_symbols, encoding, is_canonical, is_negative, lemma_canonical_unique, lemma_encoding,
    lemma_value_push, magnitude, signed_value, value,
};

verus! {

/// Why a text could not be read as a number.
#[derive(Debug, Clone, Copy, PartialEq, Eq, Structural)]
pub enum DecodeError {
    /// The text is empty, or holds a character that is not a symbol
    /// somewhere other than a minus sign in front.
    InvalidFormat,
    /// The text is a minus sign and nothing else.
    MissingMagnitude,
    /// A character met while reading the digits has no place in the
    /// alphabet. `decode` checks the format first and so never returns it.
    InvalidCharacter(char),
    /// The numeral denotes a number that does not fit in an `i32`.
    OutOfRange,
}

/// What `decode` makes of each text: the number it denotes, or the first
/// reason, in the order of the checks, for which it denotes none.
pub open spec fn decoded(s: Seq<char>) -> Result<i32, DecodeError> {
    if s.len() == 0 || !all_symbols(magnitude(s)) {
        Err(DecodeError::InvalidFormat)
    } else if magnitude(s).len() == 0 {
        Err(DecodeError::MissingMagnitude)
    } else if signed_value(s) < i32::MIN || signed_value(s) > i32::MAX {
        Err(DecodeError::OutOfRange)
    } else {
        Ok(signed_value(s) as i32)
    }
}

/// The largest magnitude that an `i32` can have, that of `i32::MIN`.
pub const MAGNITUDE_LIMIT: i64 = 2147483648;

/// A text with a character beyond ASCII holds a character that is neither a
/// minus sign nor a symbol, so its magnitude is not made of symbols.
proof fn lemma_beyond_ascii(s: Seq<char>)
    requires
        !vstd::utf8::is_ascii_chars(s),
    ensures
        s.len() > 0,
        !all_symbols(magnitude(s)),
{
    let i = choose|i: int| 0 <= i < s.len() && !('\0' <= #[trigger] s[i] <= '\u{7f}');
    if is_negative(s) {
        assert(magnitude(s)[i - 1] == s[i]);
    }
    assert(!is_symbol(s[i]));
}

/// A longer numeral denotes no smaller a number.
proof fn lemma_value_grows(s: Seq<char>, c: char)
    requires
        is_symbol(c),
    ensures
        value(s.push(c)) >= value(s),
{
    lemma_value_push(s, c);
    assert(value(s) * 36 >= value(s)) by (nonlinear_arith);
}

/// Reads `text` as a base-36 numeral: an optional minus sign, then one or
/// more of the symbols `0-9A-Z`, most significant first.
///
/// The checks come in this order: the format of the whole text, that a
/// magnitude follows the sign, and that the number fits in an `i32`.
pub fn decode(text: &str) -> (result: Result<i32, DecodeError>)
    ensures
        result == decoded(text@),
{
    broadcast use is_ascii_spec_bytes;

    if !text.is_ascii() {
        proof {
            lemma_beyond_ascii(text@);
        }
        return Err(DecodeError::InvalidFormat);
    }
    let len = text.unicode_len();
    if len == 0 {
        return Err(DecodeError::InvalidFormat);
    }
    let negative = text.get_ascii(0) == ASCII_MINUS;
    let start: usize = if negative { 1 } else { 0 };
    let ghost body = magnitude(text@);
    assert(negative == is_negative(text@));
    assert(body.len() == len - start);
    assert(forall|j: int| 0 <= j < body.len() ==> body[j] == text@[j + start]);

    let mut at = start;
    while at < len
        invariant
            start <= at <= len,
            len == text@.len(),
            text.is_ascii(),
            body == magnitude(text@),
            body.len() == len - start,
            forall|j: int| 0 <= j < body.len() ==> body[j] == text@[j + start],
            forall|j: int| 0 <= j < at - start ==> is_symbol(#[trigger] body[j]),
        decreases len - at,
    {
        let byte = text.get_ascii(at);
        assert(byte as char == body[at - start]);
        if position_of(byte).is_none() {
            return Err(DecodeError::InvalidFormat);
        }
        at += 1;
    }
    assert(all_symbols(body));
    if start == len {
        return Err(DecodeError::MissingMagnitude);
    }
    let mut sum: i64 = 0;
    let mut exceeded = false;
    at = start;
    assert(body.subrange(0, 0) =~= Seq::<char>::empty());
    while at < len
        invariant
            start <= at <= len,
            len == text@.len(),
            text.is_ascii(),
            body == magnitude(text@),
            body.len() == len - start,
            all_symbols(body),
            forall|j: int| 0 <= j < body.len() ==> body[j] == text@[j + start],
            0 <= sum <= MAGNITUDE_LIMIT,
            !exceeded ==> sum == value(body.subrange(0, at - start)),
            exceeded ==> value(body.subrange(0, at - start)) > MAGNITUDE_LIMIT,
        decreases len - at,
    {
        let byte = text.get_ascii(at);
        let ghost c = body[at - start];
        assert(byte as char == c);
        let digit = match position_of(byte) {
            Some(digit) => digit,
            None => {
                return Err(DecodeError::InvalidCharacter(byte as char));
            },
        };
        proof {
            let seen = body.subrange(0, at - start);
            assert(body.subrange(0, at + 1 - start) =~= seen.push(c));
            lemma_value_symbol(c);
            lemma_value_push(seen, c);
            lemma_value_grows(seen, c);
        }
        if !exceeded {
            let next = sum * (RADIX as i64) + (digit as i64);
            if next > MAGNITUDE_LIMIT {
                exceeded = true;
            } else {
                sum = next;
            }
        }
        at += 1;
    }
    assert(body.subrange(0, len - start) =~= body);
    if exceeded {
        return Err(DecodeError::OutOfRange);
    }
    let signed = if negative { -sum } else { sum };
    if signed < (i32::MIN as i64) || signed > (i32::MAX as i64) {
        return Err(DecodeError::OutOfRange);
    }
    Ok(signed as i32)
}

/// Round trip: reading the canonical numeral of an `i32` gives that number
/// back.
pub proof fn lemma_round_trip(n: i32)
    ensures
        decoded(encoding(n as int)) == Ok::<i32, DecodeError>(n),
{
    lemma_encoding(n as int);
}

/// A canonical numeral that is read as `n` is the numeral that `n` is
/// written as.
pub proof fn lemma_decoded_canonical(s: Seq<char>, n: i32)
    requires
        is_canonical(s),
        decoded(s) == Ok::<i32, DecodeError>(n),
    ensures
        s == encoding(n as int),
{
    lemma_canonical_unique(s);
}

/// Reading never yields `InvalidCharacter`: a character outside the alphabet
/// is a fault of the format.
pub proof fn lemma_never_invalid_character(s: Seq<char>)
    ensures
        !(decoded(s) matches Err(DecodeError::InvalidCharacter(_))),
{
}

} // verus!
