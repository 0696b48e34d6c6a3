//! From a number to its canonical numeral.

use vstd::prelude::*;
use vstd::pervasive::unreached;
use vstd::string::*;
use crate::alphabet::{symbol_at, MINUS, RADIX};
use crate::numeral::{digits, encoding, is_encoding, lemma_encoding};

verus! {

/// Why a number could not be written as a numeral.
#[derive(Debug, PartialEq, Eq, Structural)]
pub enum ParsingError {
    /// No symbol stands at this position of the alphabet.
    InvalidIndex(usize),
}

/// The canonical base-36 numeral of a 32-bit signed integer.
pub struct Base36 {
    value: String,
}

/// `String::push` appends the one character `c` to the end of `text` and
/// leaves what was there in place.
pub assume_specification[ String::push ](text: &mut String, c: char)
    ensures
        final(text)@ == old(text)@.push(c),
;

impl View for Base36 {
    type V = Seq<char>;

    closed spec fn view(&self) -> Seq<char> {
        self.value@
    }
}

impl Base36 {
    #[verifier::type_invariant]
    spec fn holds_encoding(&self) -> bool {
        is_encoding(self.value@)
    }

    fn new(value: String) -> (made: Self)
        requires
            is_encoding(value@),
        ensures
            made@ == value@,
    {
        Self { value }
    }

    /// Writes `number` in base 36: the digits of its magnitude, most
    /// significant first, after a minus sign if it is negative. Every `i32`
    /// has a numeral, so the result is always `Ok`.
    pub fn from(number: i32) -> (result: Result<Base36, ParsingError>)
        ensures
            result is Ok,
            result->Ok_0@ == encoding(number as int),
    {
        let wide: i64 = number as i64;
        let is_negative = wide < 0;
        let mut rest: i64 = if is_negative { -wide } else { wide };
        proof {
            lemma_encoding(number as int);
        }
        if rest == 0 {
            proof {
                reveal_strlit("0");
                assert("0"@ =~= encoding(0));
            }
            return Ok(Base36::new(String::from_str("0")));
        }
        let ghost total = rest as nat;
        let mut reversed: Vec<char> = Vec::new();
        while rest > 0
            invariant
                0 <= rest <= total,
                digits(total) == digits(rest as nat) + reversed@.reverse(),
            decreases rest,
        {
            let index = (rest % (RADIX as i64)) as usize;
            let c = match symbol_at(index) {
                Some(c) => c,
                None => {
                    return Err(ParsingError::InvalidIndex(index));
                },
            };
            proof {
                let before = reversed@;
                assert(before.push(c).reverse() =~= seq![c] + before.reverse());
                assert(digits(rest as nat) + before.reverse() =~= digits((rest / 36) as nat)
                    + before.push(c).reverse());
            }
            reversed.push(c);
            rest = rest / (RADIX as i64);
        }
        assert(digits(total) =~= reversed@.reverse());
        let ghost sign = if is_negative { seq![MINUS] } else { Seq::<char>::empty() };
        let mut text = String::new();
        if is_negative {
            text.push(MINUS);
        }
        assert(text@ =~= sign);
        let mut left = reversed.len();
        while left > 0
            invariant
                left <= reversed.len(),
                text@ == sign + reversed@.reverse().subrange(0, reversed.len() - left),
            decreases left,
        {
            left -= 1;
            text.push(reversed[left]);
            assert(text@ =~= sign + reversed@.reverse().subrange(0, reversed.len() - left));
        }
        assert(text@ =~= encoding(number as int));
        Ok(Base36::new(text))
    }

    /// The numeral as text.
    pub fn value(&self) -> (text: &str)
        ensures
            text@ == self@,
            is_encoding(text@),
    {
        proof {
            use_type_invariant(self);
        }
        self.value.as_str()
    }
}

/// The canonical base-36 numeral of `number`.
pub fn encode(number: i32) -> (text: String)
    ensures
        text@ == encoding(number as int),
{
    match Base36::from(number) {
        Ok(numeral) => numeral.value,
        Err(_) => unreached(),
    }
}

} // verus!
