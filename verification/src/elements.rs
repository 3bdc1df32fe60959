//! Two kinds of symbol: a character with its position in a character set,
//! and a decimal digit.
use crate::digits::{char_of_digit, digit_char};
use crate::engine::CipherElement;
use vstd::prelude::*;

verus! {

/// A character together with its position in the character set it belongs
/// to. Nothing is checked here: that positions are in order and characters
/// distinct is for the owner of the set to see to.
#[derive(Debug, PartialEq)]
pub struct CharElement {
    value: char,
    index: usize,
}

impl CharElement {
    /// The symbol for the character `value` at position `index`.
    pub fn new(value: char, index: usize) -> (element: Self)
        ensures
            element.spec_value() == value,
            element.spec_index() == index,
    {
        Self { value, index }
    }

    /// Two character symbols with the same character and position are the
    /// same symbol.
    pub proof fn lemma_same(a: Self, b: Self)
        requires
            a.spec_value() == b.spec_value(),
            a.spec_index() == b.spec_index(),
        ensures
            a == b,
    {
    }
}

impl Clone for CharElement {
    fn clone(&self) -> (copy: Self)
        ensures
            copy == *self,
    {
        Self { value: self.value, index: self.index }
    }
}

impl CipherElement for CharElement {
    type Value = char;

    closed spec fn spec_index(&self) -> usize {
        self.index
    }

    closed spec fn spec_value(&self) -> char {
        self.value
    }

    fn index(&self) -> usize {
        self.index
    }

    fn value(&self) -> char {
        self.value
    }

    proof fn lemma_clone_is_same(&self, copy: &Self) {
    }
}

/// A decimal digit, `0` to `9`. Its index is the digit itself.
#[derive(Debug, PartialEq)]
pub struct DigitElement {
    value: u8,
}

impl DigitElement {
    #[verifier::type_invariant]
    spec fn is_digit(&self) -> bool {
        self.value < 10
    }

    /// The symbol for the digit `value`, if `value` is a digit.
    pub fn new(value: u8) -> (digit: Option<Self>)
        ensures
            digit is Some <==> value < 10,
            digit matches Some(d) ==> d.spec_value() == value && d.spec_index() == value,
    {
        if value < 10 {
            Some(Self { value })
        } else {
            None
        }
    }

    /// The digit as a character, `'0'` to `'9'`.
    pub fn to_char(&self) -> (c: char)
        ensures
            self.spec_value() < 10,
            c == digit_char(self.spec_value() as int),
    {
        proof {
            use_type_invariant(self);
        }
        char_of_digit(self.value)
    }

    /// The index of a digit symbol is its digit.
    pub proof fn lemma_index_is_digit(digit: Self)
        ensures
            digit.spec_index() == digit.spec_value(),
    {
    }

    /// Two digit symbols with the same digit are the same symbol.
    pub proof fn lemma_same(a: Self, b: Self)
        requires
            a.spec_value() == b.spec_value(),
        ensures
            a == b,
    {
    }
}

impl Clone for DigitElement {
    fn clone(&self) -> (copy: Self)
        ensures
            copy == *self,
    {
        proof {
            use_type_invariant(self);
        }
        Self { value: self.value }
    }
}

impl CipherElement for DigitElement {
    type Value = u8;

    closed spec fn spec_index(&self) -> usize {
        self.value as usize
    }

    closed spec fn spec_value(&self) -> u8 {
        self.value
    }

    fn index(&self) -> (i: usize)
        ensures
            i == self.spec_value(),
    {
        self.value as usize
    }

    fn value(&self) -> u8 {
        self.value
    }

    proof fn lemma_clone_is_same(&self, copy: &Self) {
    }
}

} // verus!
