//! The mathematical model: numerals as sequences of characters.
//!
//! `encoding` gives the canonical numeral of an integer, `signed_value` the
//! integer that a numeral denotes. The lemmas relate the two.

use vstd::prelude::*;
use crate::alphabet::{
    is_symbol, lemma_symbol_value, lemma_value_symbol, symbol, symbol_value, MINUS,
};

verus! {

/// The digits of `n`, most significant first, without leading zeros.
/// Zero has no digits.
pub open spec fn digits(n: nat) -> Seq<char>
    decreases n,
{
    if n == 0 {
        Seq::empty()
    } else {
        digits(n / 36).push(symbol((n % 36) as int))
    }
}

/// The numeral of the magnitude `n`: its digits, or `"0"` for zero.
pub open spec fn magnitude_text(n: nat) -> Seq<char> {
    if n == 0 {
        seq!['0']
    } else {
        digits(n)
    }
}

/// The canonical numeral of `n`: a minus sign if `n` is negative, then the
/// numeral of its magnitude.
pub open spec fn encoding(n: int) -> Seq<char> {
    if n < 0 {
        seq![MINUS] + magnitude_text((-n) as nat)
    } else {
        magnitude_text(n as nat)
    }
}

/// The number that a sequence of symbols denotes, most significant first.
pub open spec fn value(s: Seq<char>) -> nat
    decreases s.len(),
{
    if s.len() == 0 {
        0
    } else {
        (value(s.drop_last()) * 36 + symbol_value(s.last())) as nat
    }
}

/// Whether every character of `s` is a symbol.
pub open spec fn all_symbols(s: Seq<char>) -> bool {
    forall|i: int| 0 <= i < s.len() ==> is_symbol(#[trigger] s[i])
}

/// Whether `s` starts with a minus sign.
pub open spec fn is_negative(s: Seq<char>) -> bool {
    s.len() > 0 && s[0] == MINUS
}

/// What is left of `s` once a leading minus sign is taken off.
pub open spec fn magnitude(s: Seq<char>) -> Seq<char> {
    if is_negative(s) {
        s.subrange(1, s.len() as int)
    } else {
        s
    }
}

/// Whether `s` is a numeral: an optional minus sign, then one or more symbols.
pub open spec fn is_numeral(s: Seq<char>) -> bool {
    magnitude(s).len() > 0 && all_symbols(magnitude(s))
}

/// The integer that the numeral `s` denotes.
pub open spec fn signed_value(s: Seq<char>) -> int {
    if is_negative(s) {
        -(value(magnitude(s)) as int)
    } else {
        value(magnitude(s)) as int
    }
}

/// Whether `s` is a numeral in canonical form: its magnitude has no leading
/// zero unless `s` is `"0"` itself, so that zero carries no sign.
pub open spec fn is_canonical(s: Seq<char>) -> bool {
    is_numeral(s) && (magnitude(s)[0] == '0' ==> s.len() == 1)
}

/// Whether `s` is the canonical numeral of a 32-bit signed integer.
pub open spec fn is_encoding(s: Seq<char>) -> bool {
    is_canonical(s) && i32::MIN <= signed_value(s) <= i32::MAX
}

/// Appending a symbol shifts the value by one place.
pub proof fn lemma_value_push(s: Seq<char>, c: char)
    ensures
        value(s.push(c)) == (value(s) * 36 + symbol_value(c)) as nat,
{
    assert(s.push(c).drop_last() =~= s);
}

/// The digits of `n` are symbols, denote `n`, and do not start with a zero.
pub proof fn lemma_digits(n: nat)
    ensures
        all_symbols(digits(n)),
        value(digits(n)) == n,
        n > 0 ==> digits(n).len() > 0 && digits(n)[0] != '0',
    decreases n,
{
    if n > 0 {
        let d = (n % 36) as int;
        lemma_digits(n / 36);
        lemma_symbol_value(d);
        lemma_value_push(digits(n / 36), symbol(d));
    }
}

/// The canonical numeral of `n` is a numeral in canonical form that denotes
/// `n`, and it is signed exactly if `n` is negative.
pub proof fn lemma_encoding(n: int)
    ensures
        is_canonical(encoding(n)),
        is_negative(encoding(n)) <==> n < 0,
        signed_value(encoding(n)) == n,
{
    let m: nat = if n < 0 { (-n) as nat } else { n as nat };
    let body = magnitude_text(m);
    lemma_digits(m);
    if m == 0 {
        assert(body.drop_last() =~= Seq::<char>::empty());
        assert(value(body.drop_last()) == 0);
        assert(value(body) == 0);
    }
    assert(body.len() > 0 && is_symbol(body[0]));
    if n < 0 {
        assert(magnitude(encoding(n)) =~= body);
    } else {
        assert(magnitude(encoding(n)) =~= body);
    }
}

/// Canonical form: the numeral of `n` is made of symbols alone, after one
/// minus sign in front exactly if `n` is negative, and its magnitude starts
/// with a zero only where the whole numeral is `"0"`.
pub proof fn lemma_canonical_form(n: int)
    ensures
        is_canonical(encoding(n)),
        encoding(n).contains(MINUS) <==> n < 0,
        forall|i: int|
            0 <= i < encoding(n).len() ==> is_symbol(#[trigger] encoding(n)[i]) || (i == 0 && n
                < 0 && encoding(n)[i] == MINUS),
        magnitude(encoding(n))[0] == '0' ==> encoding(n) == seq!['0'],
{
    let s = encoding(n);
    lemma_encoding(n);
    assert forall|i: int| 0 <= i < s.len() implies is_symbol(#[trigger] s[i]) || (i == 0 && n < 0
        && s[i] == MINUS) by {
        if n < 0 {
            if i > 0 {
                assert(s[i] == magnitude(s)[i - 1]);
            }
        } else {
            assert(s[i] == magnitude(s)[i]);
        }
    }
    if magnitude(s)[0] == '0' {
        assert(s =~= seq!['0']);
    }
}

/// A sequence of symbols that does not start with a zero is the digits of
/// the number it denotes.
pub proof fn lemma_digits_of_value(s: Seq<char>)
    requires
        all_symbols(s),
        s.len() > 0 ==> s[0] != '0',
    ensures
        digits(value(s)) == s,
        s.len() > 0 ==> value(s) > 0,
    decreases s.len(),
{
    if s.len() > 0 {
        let front = s.drop_last();
        let c = s.last();
        let d = symbol_value(c);
        lemma_value_symbol(c);
        assert(is_symbol(s[0]));
        if front.len() > 0 {
            assert(front[0] == s[0]);
        }
        assert forall|i: int| 0 <= i < front.len() implies is_symbol(#[trigger] front[i]) by {
            assert(front[i] == s[i]);
        }
        lemma_digits_of_value(front);
        let v = value(s);
        assert(v == value(front) * 36 + d);
        assert(v / 36 == value(front) && v % 36 == d) by (nonlinear_arith)
            requires
                v == value(front) * 36 + d,
                0 <= d < 36,
        ;
        assert(front.push(c) =~= s);
    } else {
        assert(s =~= Seq::<char>::empty());
    }
}

/// Uniqueness: a numeral in canonical form is the canonical numeral of the
/// number it denotes, so no number has two canonical numerals.
pub proof fn lemma_canonical_unique(s: Seq<char>)
    requires
        is_canonical(s),
    ensures
        s == encoding(signed_value(s)),
{
    let body = magnitude(s);
    if body[0] == '0' {
        assert(s =~= seq!['0']);
        assert(body.drop_last() =~= Seq::<char>::empty());
        assert(value(body.drop_last()) == 0);
    } else {
        lemma_digits_of_value(body);
        if is_negative(s) {
            assert(s =~= seq![MINUS] + body);
        }
    }
}

} // verus!
