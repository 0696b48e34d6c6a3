//! Base-36 text for 32-bit signed integers.
//!
//! [`encode`] writes an `i32` as its canonical base-36 numeral (digits `0-9`,
//! then upper-case `A-Z`, a leading `-` for negative numbers) and [`decode`]
//! reads such a numeral back, rejecting malformed and out-of-range text.
//! Both are stated against the mathematical model in [`numeral`].

pub mod alphabet;
pub mod numeral;
pub mod encoder;
pub mod decoder;

pub use decoder::{decode, DecodeError};
pub use encoder::{encode, Base36, ParsingError};
