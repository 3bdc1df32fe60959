//! A Vigenère-style polyalphabetic substitution cipher over an arbitrary
//! finite symbol set.
//!
//! The cipher is defined on indices modulo the size of the symbol set, so
//! it works for any kind of symbol that knows its position in the set.
pub mod digits;
pub mod elements;
pub mod engine;
pub mod error;
pub mod foreign;
pub mod laws;
pub mod modular;
pub mod text;

pub use crate::elements::{CharElement, DigitElement};
pub use crate::engine::{CipherElement, VigenereCipher};
pub use crate::error::CipherError;
pub use crate::text::StringCipher;
pub use nonempty_tools::{NonEmptySliceRef, NonEmptyVec};
