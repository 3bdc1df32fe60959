//! The cipher on symbols: any value that knows its index in a symbol set.
use crate::modular::{backward_index, forward_index, shift_backward, shift_forward};
use nonempty_tools::{NonEmptySliceRef, NonEmptyVec};
use std::fmt::Debug;
use vstd::prelude::*;

verus! {

/// A value that can stand as a symbol of the cipher.
///
/// A symbol carries its own index in the set it belongs to; the cipher
/// works on indices alone. The value it stands for is what callers compare
/// and show.
pub trait CipherElement: Clone + Debug {
    /// What the symbol stands for, such as a `char` or a digit.
    type Value: PartialEq;

    /// The index as the contracts see it.
    spec fn spec_index(&self) -> usize;

    /// The value as the contracts see it.
    spec fn spec_value(&self) -> Self::Value;

    /// The zero-based position of the symbol in its set.
    fn index(&self) -> (i: usize)
        ensures
            i == self.spec_index(),
    ;

    /// The value that the symbol stands for.
    fn value(&self) -> (v: Self::Value)
        ensures
            v == self.spec_value(),
    ;

    /// A clone of a symbol is the same symbol.
    proof fn lemma_clone_is_same(&self, copy: &Self)
        requires
            cloned(*self, *copy),
        ensures
            *copy == *self,
    ;
}

/// What encrypting `plaintext` under `key` gives in the symbol set
/// `symbols`: position `i` holds the symbol found at the sum of the index
/// of `plaintext[i]` and the index of the key symbol for that position,
/// reduced modulo the size of the set. The key repeats as often as needed.
pub open spec fn encrypted<T: CipherElement>(
    symbols: Seq<T>,
    plaintext: Seq<T>,
    key: Seq<T>,
) -> Seq<T> {
    Seq::new(
        plaintext.len(),
        |i: int|
            symbols[shift_forward(
                plaintext[i].spec_index() as int,
                key[i % (key.len() as int)].spec_index() as int,
                symbols.len() as int,
            )],
    )
}

/// What decrypting `ciphertext` under `key` gives in the symbol set
/// `symbols`: as [`encrypted`], with the index of the key symbol taken
/// away instead of added.
pub open spec fn decrypted<T: CipherElement>(
    symbols: Seq<T>,
    ciphertext: Seq<T>,
    key: Seq<T>,
) -> Seq<T> {
    Seq::new(
        ciphertext.len(),
        |i: int|
            symbols[shift_backward(
                ciphertext[i].spec_index() as int,
                key[i % (key.len() as int)].spec_index() as int,
                symbols.len() as int,
            )],
    )
}

/// A symbol set in which every symbol sits at the position that its index
/// names.
pub open spec fn indexed_in_order<T: CipherElement>(symbols: Seq<T>) -> bool {
    forall|i: int| 0 <= i < symbols.len() ==> (#[trigger] symbols[i]).spec_index() == i
}

/// A sequence made of symbols of the set `symbols` only.
pub open spec fn drawn_from<T: CipherElement>(symbols: Seq<T>, items: Seq<T>) -> bool {
    forall|i: int|
        0 <= i < items.len() ==> {
            &&& (#[trigger] items[i]).spec_index() < symbols.len()
            &&& symbols[items[i].spec_index() as int] == items[i]
        }
}

/// Whether `got` is the symbol that `operation` puts at position `i`: the
/// symbol of the set at an index that `operation` gives for the index of
/// `input[i]`, the index of the key symbol for that position and the size
/// of the set.
pub open spec fn placed_by<T: CipherElement, F: Fn(usize, usize, usize) -> usize>(
    operation: F,
    symbols: Seq<T>,
    input: Seq<T>,
    key: Seq<T>,
    i: int,
    got: T,
) -> bool {
    exists|r: usize|
        #[trigger] call_ensures(
            operation,
            (
                input[i].spec_index(),
                key[i % (key.len() as int)].spec_index(),
                symbols.len() as usize,
            ),
            r,
        ) && r < symbols.len() && got == symbols[r as int]
}

/// The cipher over a fixed, non-empty sequence of symbols.
///
/// The view of a cipher is that sequence. Its length is the modulus of all
/// index arithmetic.
#[derive(Debug)]
pub struct VigenereCipher<T: CipherElement> {
    charset: Vec<T>,
    modulus: usize,
}

impl<T: CipherElement> View for VigenereCipher<T> {
    type V = Seq<T>;

    closed spec fn view(&self) -> Seq<T> {
        self.charset@
    }
}

impl<T: CipherElement> Clone for VigenereCipher<T> {
    /// A clone holds the same symbols.
    fn clone(&self) -> (copy: Self)
        ensures
            copy@ == self@,
    {
        proof {
            use_type_invariant(self);
        }
        let charset = self.charset.clone();
        assert(charset@ =~= self.charset@) by {
            assert forall|i: int| 0 <= i < charset@.len() implies charset@[i] == self.charset@[i] by {
                self.charset@[i].lemma_clone_is_same(&charset@[i]);
            }
        }
        Self { charset, modulus: self.modulus }
    }
}

impl<T: CipherElement> VigenereCipher<T> {
    #[verifier::type_invariant]
    spec fn well_formed(&self) -> bool {
        &&& self.modulus == self.charset@.len()
        &&& self.modulus >= 1
    }

    /// Makes a cipher over the symbols of `charset`, in their order.
    ///
    /// What a `NonEmptyVec` holds is hidden from the verifier, so the
    /// contract speaks of it through `NonEmptyVec::into_inner`: the cipher
    /// holds the very items that `into_inner` hands out for `charset`.
    /// [`Self::from_symbols`] does the same for a plain vector.
    pub fn new(charset: NonEmptyVec<T>) -> (cipher: Self)
        ensures
            cipher@.len() >= 1,
            exists|items: Vec<T>| #[trigger]
                call_ensures(NonEmptyVec::<T>::into_inner, (charset,), items) && cipher@ == items@,
    {
        let items = charset.into_inner();
        assert(call_ensures(NonEmptyVec::<T>::into_inner, (charset,), items));
        Self::from_symbols(items).unwrap()
    }

    /// Makes a cipher over `symbols`, in their order, unless there are
    /// none.
    pub fn from_symbols(symbols: Vec<T>) -> (cipher: Option<Self>)
        ensures
            cipher is None <==> symbols@.len() == 0,
            cipher matches Some(c) ==> c@ == symbols@,
    {
        let modulus = symbols.len();
        if modulus == 0 {
            None
        } else {
            Some(Self { charset: symbols, modulus })
        }
    }

    /// The number of symbols, which is the modulus of the index arithmetic.
    pub fn modulus(&self) -> (n: usize)
        ensures
            n == self@.len(),
            n >= 1,
    {
        proof {
            use_type_invariant(self);
        }
        self.modulus
    }

    /// The symbols, in their order.
    pub fn charset(&self) -> (symbols: &[T])
        ensures
            symbols@ == self@,
    {
        self.charset.as_slice()
    }

    /// Encrypts `plaintext` under `key`.
    ///
    /// What a `NonEmptySliceRef` holds is hidden from the verifier, so the
    /// contract speaks of it through `NonEmptySliceRef::as_slice`: the
    /// result is the encryption under the very items that `as_slice` hands
    /// out for `key`, of which there is at least one.
    /// [`Self::encrypt_symbols`] does the same for a plain slice.
    pub fn encrypt(&self, plaintext: &[T], key: NonEmptySliceRef<T>) -> (out: Vec<T>)
        ensures
            out@.len() == plaintext@.len(),
            exists|items: &[T]| #[trigger]
                call_ensures(NonEmptySliceRef::<T>::as_slice, (&key,), items) && items@.len() >= 1
                    && out@ == encrypted(self@, plaintext@, items@),
    {
        let items = key.as_slice();
        assert(call_ensures(NonEmptySliceRef::<T>::as_slice, (&key,), items));
        self.encrypt_symbols(plaintext, items)
    }

    /// Decrypts `ciphertext` under `key`.
    ///
    /// As for [`Self::encrypt`], the contract speaks of `key` through
    /// `NonEmptySliceRef::as_slice`: the result is the decryption under
    /// the very items that `as_slice` hands out for `key`.
    /// [`Self::decrypt_symbols`] does the same for a plain slice.
    pub fn decrypt(&self, ciphertext: &[T], key: NonEmptySliceRef<T>) -> (out: Vec<T>)
        ensures
            out@.len() == ciphertext@.len(),
            exists|items: &[T]| #[trigger]
                call_ensures(NonEmptySliceRef::<T>::as_slice, (&key,), items) && items@.len() >= 1
                    && out@ == decrypted(self@, ciphertext@, items@),
    {
        let items = key.as_slice();
        assert(call_ensures(NonEmptySliceRef::<T>::as_slice, (&key,), items));
        self.decrypt_symbols(ciphertext, items)
    }

    /// Encrypts `plaintext` under the non-empty `key`.
    pub fn encrypt_symbols(&self, plaintext: &[T], key: &[T]) -> (out: Vec<T>)
        requires
            key@.len() >= 1,
        ensures
            out@ == encrypted(self@, plaintext@, key@),
    {
        proof {
            use_type_invariant(self);
        }
        let out = self.process(plaintext, key, forward_index);
        assert forall|i: int| 0 <= i < plaintext@.len() implies out@[i] == encrypted(
            self@,
            plaintext@,
            key@,
        )[i] by {
            assert(placed_by(forward_index, self@, plaintext@, key@, i, out@[i]));
        }
        assert(out@ =~= encrypted(self@, plaintext@, key@));
        out
    }

    /// Decrypts `ciphertext` under the non-empty `key`.
    pub fn decrypt_symbols(&self, ciphertext: &[T], key: &[T]) -> (out: Vec<T>)
        requires
            key@.len() >= 1,
        ensures
            out@ == decrypted(self@, ciphertext@, key@),
    {
        proof {
            use_type_invariant(self);
        }
        let out = self.process(ciphertext, key, backward_index);
        assert forall|i: int| 0 <= i < ciphertext@.len() implies out@[i] == decrypted(
            self@,
            ciphertext@,
            key@,
        )[i] by {
            assert(placed_by(backward_index, self@, ciphertext@, key@, i, out@[i]));
        }
        assert(out@ =~= decrypted(self@, ciphertext@, key@));
        out
    }

    /// The one path that both directions take: each symbol of `input` is
    /// replaced by the symbol of the set at the index that `operation`
    /// gives for the symbol's index, the index of its key symbol and the
    /// modulus, in that order. The key repeats as often as needed.
    ///
    /// Any operation will do that can be called on those arguments and
    /// gives an index below the modulus there; nothing is asked of it
    /// elsewhere.
    fn process<F>(&self, input: &[T], key: &[T], operation: F) -> (out: Vec<T>) where
        F: Fn(usize, usize, usize) -> usize,

        requires
            key@.len() >= 1,
            forall|i: int|
                0 <= i < input@.len() ==> call_requires(
                    operation,
                    (
                        (#[trigger] input@[i]).spec_index(),
                        key@[i % (key@.len() as int)].spec_index(),
                        self@.len() as usize,
                    ),
                ),
            forall|i: int, r: usize|
                0 <= i < input@.len() && #[trigger] call_ensures(
                    operation,
                    (
                        input@[i].spec_index(),
                        key@[i % (key@.len() as int)].spec_index(),
                        self@.len() as usize,
                    ),
                    r,
                ) ==> r < self@.len(),
        ensures
            out@.len() == input@.len(),
            forall|i: int|
                0 <= i < input@.len() ==> placed_by(
                    operation,
                    self@,
                    input@,
                    key@,
                    i,
                    #[trigger] out@[i],
                ),
    {
        proof {
            use_type_invariant(self);
        }
        let mut out: Vec<T> = Vec::new();
        for i in 0..input.len()
            invariant
                self.modulus == self.charset@.len(),
                self.modulus >= 1,
                key@.len() >= 1,
                forall|j: int|
                    0 <= j < input@.len() ==> call_requires(
                        operation,
                        (
                            (#[trigger] input@[j]).spec_index(),
                            key@[j % (key@.len() as int)].spec_index(),
                            self@.len() as usize,
                        ),
                    ),
                forall|j: int, r: usize|
                    0 <= j < input@.len() && #[trigger] call_ensures(
                        operation,
                        (
                            input@[j].spec_index(),
                            key@[j % (key@.len() as int)].spec_index(),
                            self@.len() as usize,
                        ),
                        r,
                    ) ==> r < self@.len(),
                out@.len() == i,
                forall|j: int|
                    0 <= j < i ==> placed_by(operation, self@, input@, key@, j, #[trigger] out@[j]),
        {
            let key_element = &key[i % key.len()];
            let new_index = operation(input[i].index(), key_element.index(), self.modulus);
            let symbol = self.charset[new_index].clone();
            proof {
                self.charset@[new_index as int].lemma_clone_is_same(&symbol);
                assert(placed_by(operation, self@, input@, key@, i as int, symbol));
            }
            out.push(symbol);
        }
        out
    }
}

} // verus!
