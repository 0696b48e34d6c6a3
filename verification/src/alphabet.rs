//! The thirty-six symbols and their digit values.

use vstd::prelude::*;
use vstd::string::*;

verus! {

/// The radix of the numeral system.
pub const RADIX: u8 = 36;

/// The sign that precedes the magnitude of a negative number.
pub const MINUS: char = '-';

/// The ASCII code of `'-'`.
pub const ASCII_MINUS: u8 = 45;

/// The ASCII code of `'0'`.
pub const ASCII_0: u8 = 48;

/// The ASCII code of `'9'`.
pub const ASCII_9: u8 = 57;

/// The ASCII code of `'A'`.
pub const ASCII_A: u8 = 65;

/// The ASCII code of `'Z'`.
pub const ASCII_Z: u8 = 90;

/// The symbols in order of their digit value.
pub const CHARSET: &'static str = "0123456789ABCDEFGHIJKLMNOPQRSTUVWXYZ";

/// The symbol that stands for digit value `d`, for `0 <= d < 36`.
pub open spec fn symbol(d: int) -> char {
    if d < 10 {
        ('0' as int + d) as char
    } else {
        ('A' as int + (d - 10)) as char
    }
}

/// Whether `c` is one of the thirty-six symbols.
pub open spec fn is_symbol(c: char) -> bool {
    ('0' <= c && c <= '9') || ('A' <= c && c <= 'Z')
}

/// The digit value of the symbol `c`.
pub open spec fn symbol_value(c: char) -> int {
    if c <= '9' {
        c as int - '0' as int
    } else {
        c as int - 'A' as int + 10
    }
}

/// The alphabet as a sequence: position `d` holds `symbol(d)`.
pub open spec fn alphabet() -> Seq<char> {
    Seq::new(36, |d: int| symbol(d))
}

/// The text of `CHARSET` is the alphabet.
pub proof fn lemma_charset_is_alphabet()
    ensures
        CHARSET@ == alphabet(),
{
    reveal_strlit("0123456789ABCDEFGHIJKLMNOPQRSTUVWXYZ");
    assert(CHARSET@ =~= alphabet());
}

/// Every digit value has a symbol, and that symbol has this value.
pub proof fn lemma_symbol_value(d: int)
    requires
        0 <= d < 36,
    ensures
        is_symbol(symbol(d)),
        symbol_value(symbol(d)) == d,
        symbol(d) != MINUS,
{
}

/// Every symbol stands for exactly one digit value.
pub proof fn lemma_value_symbol(c: char)
    requires
        is_symbol(c),
    ensures
        0 <= symbol_value(c) < 36,
        symbol(symbol_value(c)) == c,
{
}

/// The symbol at position `index` of the alphabet, if there is one.
pub fn symbol_at(index: usize) -> (found: Option<char>)
    ensures
        index < 36 ==> found == Some(symbol(index as int)),
        index >= 36 ==> found is None,
{
    proof {
        lemma_charset_is_alphabet();
    }
    if index < CHARSET.unicode_len() {
        Some(CHARSET.get_char(index))
    } else {
        None
    }
}

/// The position in the alphabet of the character that the byte `b` encodes,
/// if it is a symbol.
pub fn position_of(b: u8) -> (found: Option<u8>)
    ensures
        is_symbol(b as char) ==> found == Some(symbol_value(b as char) as u8),
        !is_symbol(b as char) ==> found is None,
{
    if ASCII_0 <= b && b <= ASCII_9 {
        Some(b - ASCII_0)
    } else if ASCII_A <= b && b <= ASCII_Z {
        Some(b - ASCII_A + 10)
    } else {
        None
    }
}

} // verus!
