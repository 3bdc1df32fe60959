//! The cipher on text: strings in, strings out, over a set of characters
//! given as a string.
//!
//! Characters of a text that are not in the set pass through unchanged and
//! use up no key material.
use crate::digits::{decimal, push_decimal};
use crate::elements::CharElement;
use crate::engine::CipherElement;
use crate::error::CipherError;
use crate::modular::{backward_index, forward_index, shift_backward, shift_forward};
use std::collections::HashSet;
use vstd::prelude::*;
use vstd::string::StringExecFns;
use vstd::utf8::char_u32_cast;

verus! {

/// What making a cipher from the characters `chars` comes to: the
/// characters themselves, unless there are none or one occurs twice.
pub open spec fn charset_outcome(chars: Seq<char>) -> Result<Seq<char>, CipherError> {
    if chars.len() == 0 {
        Err(CipherError::EmptyCharset)
    } else if !chars.no_duplicates() {
        Err(CipherError::DuplicateCharset)
    } else {
        Ok(chars)
    }
}

/// A character set that a cipher can be made from.
pub open spec fn is_alphabet(chars: Seq<char>) -> bool {
    chars.len() >= 1 && chars.no_duplicates()
}

/// How many of the first `i` characters of `text` are in `alphabet`. This
/// is where the key cursor stands when the cipher comes to position `i`.
pub open spec fn key_cursor(alphabet: Seq<char>, text: Seq<char>, i: int) -> nat
    decreases i,
{
    if i <= 0 {
        0
    } else {
        key_cursor(alphabet, text, i - 1) + if alphabet.contains(text[i - 1]) {
            1nat
        } else {
            0nat
        }
    }
}

/// Whether every character of `key` is in `alphabet`.
pub open spec fn all_known(alphabet: Seq<char>, key: Seq<char>) -> bool {
    forall|i: int| 0 <= i < key.len() ==> alphabet.contains(#[trigger] key[i])
}

/// Whether `j` is the place of the first character of `key` that is not
/// in `alphabet`.
pub open spec fn is_first_foreign(alphabet: Seq<char>, key: Seq<char>, j: int) -> bool {
    &&& 0 <= j < key.len()
    &&& !alphabet.contains(key[j])
    &&& forall|i: int| 0 <= i < j ==> alphabet.contains(#[trigger] key[i])
}

/// What is wrong with `key`, if anything: it is empty, or it holds a
/// character that is not in `alphabet`, of which the first is named.
pub open spec fn key_fault(alphabet: Seq<char>, key: Seq<char>) -> Option<CipherError> {
    if key.len() == 0 {
        Some(CipherError::EmptyKey)
    } else if !all_known(alphabet, key) {
        Some(
            CipherError::InvalidKeyCharacter(
                key[choose|j: int| is_first_foreign(alphabet, key, j)],
            ),
        )
    } else {
        None
    }
}

/// The key character that serves position `i` of `text`: the key repeats,
/// and only the characters of `text` that are in `alphabet` move it on.
pub open spec fn key_char_at(alphabet: Seq<char>, text: Seq<char>, key: Seq<char>, i: int) -> char {
    key[(key_cursor(alphabet, text, i) as int) % (key.len() as int)]
}

/// What the operation of a direction is called with at position `i` of
/// `text`, when the character there is in `alphabet` and the key is sound:
/// the index of the character, the index of its key character and the
/// size of the set.
pub open spec fn shift_arguments(
    alphabet: Seq<char>,
    text: Seq<char>,
    key: Seq<char>,
    i: int,
) -> (usize, usize, usize) {
    (
        alphabet.index_of(text[i]) as usize,
        alphabet.index_of(key_char_at(alphabet, text, key, i)) as usize,
        alphabet.len() as usize,
    )
}

/// Whether `got` is the character that `operation` puts at position `i`
/// of `text`: for a character of the set, the character of the set at an
/// index that `operation` gives for [`shift_arguments`]; for any other,
/// the character itself.
pub open spec fn char_placed_by<F: Fn(usize, usize, usize) -> usize>(
    operation: F,
    alphabet: Seq<char>,
    text: Seq<char>,
    key: Seq<char>,
    i: int,
    got: char,
) -> bool {
    if alphabet.contains(text[i]) {
        exists|r: usize|
            #[trigger] call_ensures(operation, shift_arguments(alphabet, text, key, i), r) && r
                < alphabet.len() && got == alphabet[r as int]
    } else {
        got == text[i]
    }
}

/// The character at position `i` of the encryption of `text` under `key`.
pub open spec fn encrypted_char(
    alphabet: Seq<char>,
    text: Seq<char>,
    key: Seq<char>,
    i: int,
) -> char {
    if alphabet.contains(text[i]) {
        alphabet[shift_forward(
            alphabet.index_of(text[i]),
            alphabet.index_of(key_char_at(alphabet, text, key, i)),
            alphabet.len() as int,
        )]
    } else {
        text[i]
    }
}

/// The character at position `i` of the decryption of `text` under `key`.
pub open spec fn decrypted_char(
    alphabet: Seq<char>,
    text: Seq<char>,
    key: Seq<char>,
    i: int,
) -> char {
    if alphabet.contains(text[i]) {
        alphabet[shift_backward(
            alphabet.index_of(text[i]),
            alphabet.index_of(key_char_at(alphabet, text, key, i)),
            alphabet.len() as int,
        )]
    } else {
        text[i]
    }
}

/// The encryption of `text` under `key` over `alphabet`, character by
/// character.
pub open spec fn encrypted_text(alphabet: Seq<char>, text: Seq<char>, key: Seq<char>) -> Seq<char> {
    Seq::new(text.len(), |i: int| encrypted_char(alphabet, text, key, i))
}

/// The decryption of `text` under `key` over `alphabet`, character by
/// character.
pub open spec fn decrypted_text(alphabet: Seq<char>, text: Seq<char>, key: Seq<char>) -> Seq<char> {
    Seq::new(text.len(), |i: int| decrypted_char(alphabet, text, key, i))
}

/// What encrypting `text` under `key` comes to: the fault of the key, or
/// else the encrypted text.
pub open spec fn encrypt_outcome(
    alphabet: Seq<char>,
    text: Seq<char>,
    key: Seq<char>,
) -> Result<Seq<char>, CipherError> {
    match key_fault(alphabet, key) {
        Some(e) => Err(e),
        None => Ok(encrypted_text(alphabet, text, key)),
    }
}

/// What decrypting `text` under `key` comes to: the fault of the key, or
/// else the decrypted text.
pub open spec fn decrypt_outcome(
    alphabet: Seq<char>,
    text: Seq<char>,
    key: Seq<char>,
) -> Result<Seq<char>, CipherError> {
    match key_fault(alphabet, key) {
        Some(e) => Err(e),
        None => Ok(decrypted_text(alphabet, text, key)),
    }
}

/// The first character of `key` that is not in `alphabet` is the one that
/// [`key_fault`] names.
pub proof fn lemma_first_foreign_is_fault(alphabet: Seq<char>, key: Seq<char>, j: int)
    requires
        is_first_foreign(alphabet, key, j),
    ensures
        key_fault(alphabet, key) == Some(CipherError::InvalidKeyCharacter(key[j])),
{
    let chosen = choose|c: int| is_first_foreign(alphabet, key, c);
    assert(is_first_foreign(alphabet, key, chosen));
    if chosen < j {
        assert(alphabet.contains(key[chosen]));
    } else if j < chosen {
        assert(alphabet.contains(key[j]));
    }
    assert(!all_known(alphabet, key));
}

/// The printable characters of ASCII, from the space (code 32) to the
/// tilde (code 126), in the order of their codes.
pub open spec fn printable_ascii_chars() -> Seq<char> {
    Seq::new(95, |i: int| (32 + i) as char)
}

/// With a sound key, the first two of [`shift_arguments`] at a character
/// of the set are the places of that character and of its key character.
pub proof fn lemma_shift_arguments_in_set(
    alphabet: Seq<char>,
    text: Seq<char>,
    key: Seq<char>,
    i: int,
)
    requires
        alphabet.len() <= usize::MAX,
        key_fault(alphabet, key) is None,
        0 <= i < text.len(),
        alphabet.contains(text[i]),
    ensures
        shift_arguments(alphabet, text, key, i).0 == alphabet.index_of(text[i]),
        shift_arguments(alphabet, text, key, i).1 == alphabet.index_of(
            key_char_at(alphabet, text, key, i),
        ),
        shift_arguments(alphabet, text, key, i).2 == alphabet.len(),
        0 <= alphabet.index_of(text[i]) < alphabet.len(),
        0 <= alphabet.index_of(key_char_at(alphabet, text, key, i)) < alphabet.len(),
{
    let at = (key_cursor(alphabet, text, i) as int) % (key.len() as int);
    assert(0 <= at < key.len());
    assert(alphabet.contains(key[at]));
}

/// The text cipher over a set of distinct characters.
///
/// The view of a cipher is its character set, in the order given.
pub struct StringCipher {
    charset: Vec<CharElement>,
    modulus: usize,
}

impl View for StringCipher {
    type V = Seq<char>;

    closed spec fn view(&self) -> Seq<char> {
        Seq::new(self.charset@.len(), |i: int| self.charset@[i].spec_value())
    }
}

/// Whether no character occurs twice in `chars`.
fn all_distinct(chars: &Vec<char>) -> (distinct: bool)
    ensures
        distinct == chars@.no_duplicates(),
{
    broadcast use vstd::std_specs::hash::group_hash_axioms;

    let mut seen: HashSet<u32> = HashSet::new();
    for i in 0..chars.len()
        invariant
            forall|j: int| 0 <= j < i ==> seen@.contains(#[trigger] chars@[j] as u32),
            forall|code: u32| #[trigger]
                seen@.contains(code) ==> exists|j: int| 0 <= j < i && chars@[j] as u32 == code,
            forall|a: int, b: int| 0 <= a < b < i ==> chars@[a] != chars@[b],
    {
        let fresh = seen.insert(chars[i] as u32);
        if !fresh {
            proof {
                let j = choose|j: int| 0 <= j < i && chars@[j] as u32 == chars@[i as int] as u32;
                char_u32_cast(chars@[j], chars@[j] as u32);
                char_u32_cast(chars@[i as int], chars@[i as int] as u32);
                assert(chars@[j] == chars@[i as int]);
            }
            return false;
        }
    }
    true
}

/// The characters of `s`, in order.
fn chars_of(s: &str) -> (chars: Vec<char>)
    ensures
        chars@ == s@,
{
    let mut chars: Vec<char> = Vec::new();
    for c in it: s.chars()
        invariant
            it.seq() == s@,
            chars@ == it.seq().take(it.index()),
    {
        chars.push(c);
    }
    chars
}

impl StringCipher {
    #[verifier::type_invariant]
    spec fn well_formed(&self) -> bool {
        &&& self.modulus == self.charset@.len()
        &&& self.modulus >= 1
        &&& forall|i: int|
            0 <= i < self.charset@.len() ==> (#[trigger] self.charset@[i]).spec_index() == i
        &&& self@.no_duplicates()
    }

    /// Makes a cipher over the characters of `charset`, in their order.
    /// Fails if `charset` is empty or holds a character twice.
    pub fn new(charset: &str) -> (made: Result<Self, CipherError>)
        ensures
            match made {
                Ok(cipher) => charset_outcome(charset@) == Ok::<Seq<char>, CipherError>(cipher@),
                Err(e) => charset_outcome(charset@) == Err::<Seq<char>, CipherError>(e),
            },
            charset@.len() == 0 ==> (made matches Err(e) && e == CipherError::EmptyCharset),
            charset@.len() > 0 && !charset@.no_duplicates() ==> (made matches Err(e) && e
                == CipherError::DuplicateCharset),
            is_alphabet(charset@) ==> (made matches Ok(cipher) && cipher@ == charset@),
    {
        if charset.is_empty() {
            return Err(CipherError::EmptyCharset);
        }
        let chars = chars_of(charset);
        if !all_distinct(&chars) {
            return Err(CipherError::DuplicateCharset);
        }
        let mut elements: Vec<CharElement> = Vec::new();
        for i in 0..chars.len()
            invariant
                elements@.len() == i,
                forall|j: int|
                    0 <= j < i ==> (#[trigger] elements@[j]).spec_index() == j && elements@[j].spec_value()
                        == chars@[j],
        {
            elements.push(CharElement::new(chars[i], i));
        }
        let modulus = elements.len();
        let cipher = Self { charset: elements, modulus };
        assert(cipher@ =~= charset@);
        Ok(cipher)
    }

    /// The cipher over the capital letters `A` to `Z`.
    pub fn uppercase_alpha() -> (cipher: Self)
        ensures
            cipher@ == "ABCDEFGHIJKLMNOPQRSTUVWXYZ"@,
    {
        proof {
            reveal_strlit("ABCDEFGHIJKLMNOPQRSTUVWXYZ");
            assert("ABCDEFGHIJKLMNOPQRSTUVWXYZ"@.no_duplicates());
        }
        Self::new("ABCDEFGHIJKLMNOPQRSTUVWXYZ").unwrap()
    }

    /// The cipher over the small letters `a` to `z`.
    pub fn lowercase_alpha() -> (cipher: Self)
        ensures
            cipher@ == "abcdefghijklmnopqrstuvwxyz"@,
    {
        proof {
            reveal_strlit("abcdefghijklmnopqrstuvwxyz");
            assert("abcdefghijklmnopqrstuvwxyz"@.no_duplicates());
        }
        Self::new("abcdefghijklmnopqrstuvwxyz").unwrap()
    }

    /// The cipher over the capital letters followed by the small letters.
    pub fn mixed_alpha() -> (cipher: Self)
        ensures
            cipher@ == "ABCDEFGHIJKLMNOPQRSTUVWXYZabcdefghijklmnopqrstuvwxyz"@,
    {
        proof {
            reveal_strlit("ABCDEFGHIJKLMNOPQRSTUVWXYZabcdefghijklmnopqrstuvwxyz");
            assert("ABCDEFGHIJKLMNOPQRSTUVWXYZabcdefghijklmnopqrstuvwxyz"@.no_duplicates());
        }
        Self::new("ABCDEFGHIJKLMNOPQRSTUVWXYZabcdefghijklmnopqrstuvwxyz").unwrap()
    }

    /// The cipher over the capital letters, the small letters and the
    /// digits, in that order.
    pub fn alphanumeric() -> (cipher: Self)
        ensures
            cipher@ == "ABCDEFGHIJKLMNOPQRSTUVWXYZabcdefghijklmnopqrstuvwxyz0123456789"@,
    {
        proof {
            reveal_strlit("ABCDEFGHIJKLMNOPQRSTUVWXYZabcdefghijklmnopqrstuvwxyz0123456789");
            assert("ABCDEFGHIJKLMNOPQRSTUVWXYZabcdefghijklmnopqrstuvwxyz0123456789"@.no_duplicates());
        }
        Self::new("ABCDEFGHIJKLMNOPQRSTUVWXYZabcdefghijklmnopqrstuvwxyz0123456789").unwrap()
    }

    /// The cipher over the printable characters of ASCII, from the space
    /// to the tilde.
    pub fn printable_ascii() -> (cipher: Self)
        ensures
            cipher@ == printable_ascii_chars(),
    {
        let mut chars = String::new();
        for code in 32u8..127
            invariant
                chars@ == Seq::new((code - 32) as nat, |i: int| (32 + i) as char),
        {
            chars.push(code as char);
        }
        assert(chars@ == printable_ascii_chars());
        assert(chars@.no_duplicates());
        Self::new(chars.as_str()).unwrap()
    }

    /// A line that tells the size of the character set and shows its
    /// characters.
    pub fn charset_info(&self) -> (info: String)
        ensures
            info@ == "字符集大小: "@ + decimal(self@.len()) + ", 字符: \""@ + self@ + "\""@,
    {
        proof {
            use_type_invariant(self);
        }
        let mut info = String::from_str("字符集大小: ");
        push_decimal(&mut info, self.modulus);
        info.append(", 字符: \"");
        let ghost head = info@;
        for i in 0..self.charset.len()
            invariant
                info@ == head + self@.take(i as int),
        {
            info.push(self.charset[i].value());
        }
        info.append("\"");
        info
    }

    /// The symbol of the character `ch`, if `ch` is in the set.
    fn find(&self, ch: char) -> (found: Option<&CharElement>)
        ensures
            match found {
                Some(element) => {
                    &&& self@.contains(ch)
                    &&& element.spec_value() == ch
                    &&& element.spec_index() == self@.index_of(ch)
                    &&& 0 <= self@.index_of(ch) < self@.len()
                },
                None => !self@.contains(ch),
            },
    {
        proof {
            use_type_invariant(self);
        }
        for i in 0..self.charset.len()
            invariant
                self.well_formed(),
                forall|j: int| 0 <= j < i ==> self@[j] != ch,
        {
            let element = &self.charset[i];
            if element.value() == ch {
                assert(self@[i as int] == ch);
                return Some(element);
            }
        }
        None
    }

    /// The symbols of the characters of `s`, all of which must be in the
    /// set; else the first that is not is reported.
    fn parse_string(&self, s: &str) -> (parsed: Result<Vec<CharElement>, CipherError>)
        ensures
            match parsed {
                Ok(elements) => {
                    &&& all_known(self@, s@)
                    &&& elements@.len() == s@.len()
                    &&& forall|i: int|
                        0 <= i < s@.len() ==> (#[trigger] elements@[i]).spec_value() == s@[i]
                    &&& forall|i: int|
                        0 <= i < s@.len() ==> (#[trigger] elements@[i]).spec_index()
                            == self@.index_of(s@[i])
                },
                Err(e) => exists|j: int|
                    is_first_foreign(self@, s@, j) && e == CipherError::InvalidKeyCharacter(
                        s@[j],
                    ),
            },
    {
        let chars = chars_of(s);
        let mut elements: Vec<CharElement> = Vec::new();
        for i in 0..chars.len()
            invariant
                chars@ == s@,
                elements@.len() == i,
                forall|j: int| 0 <= j < i ==> self@.contains(#[trigger] s@[j]),
                forall|j: int| 0 <= j < i ==> (#[trigger] elements@[j]).spec_value() == s@[j],
                forall|j: int|
                    0 <= j < i ==> (#[trigger] elements@[j]).spec_index() == self@.index_of(s@[j]),
        {
            match self.find(chars[i]) {
                Some(element) => {
                    elements.push(element.clone());
                },
                None => {
                    assert(is_first_foreign(self@, s@, i as int));
                    return Err(CipherError::InvalidKeyCharacter(chars[i]));
                },
            }
        }
        Ok(elements)
    }

    /// The one path that both directions take. Each character of `text`
    /// that is in the set is replaced by the character of the set at the
    /// index that `operation` gives for the character's index, the index
    /// of its key character and the modulus, in that order; every other
    /// character is kept and moves the key on by nothing.
    ///
    /// Any operation will do that can be called on those arguments and
    /// gives an index below the modulus there; nothing is asked of it
    /// elsewhere, nor anything at all when the key is turned down.
    fn transform<F>(&self, text: &str, key: &str, operation: F) -> (done: Result<
        String,
        CipherError,
    >) where F: Fn(usize, usize, usize) -> usize
        requires
            forall|i: int|
                0 <= i < text@.len() && self@.contains(text@[i]) && key_fault(self@, key@) is None
                    ==> call_requires(operation, #[trigger] shift_arguments(self@, text@, key@, i)),
            forall|i: int, r: usize|
                0 <= i < text@.len() && self@.contains(text@[i]) && key_fault(self@, key@) is None
                    && #[trigger] call_ensures(
                    operation,
                    shift_arguments(self@, text@, key@, i),
                    r,
                ) ==> r < self@.len(),
        ensures
            match done {
                Ok(out) => {
                    &&& key_fault(self@, key@) is None
                    &&& out@.len() == text@.len()
                    &&& forall|i: int|
                        0 <= i < text@.len() ==> char_placed_by(
                            operation,
                            self@,
                            text@,
                            key@,
                            i,
                            #[trigger] out@[i],
                        )
                },
                Err(e) => {
                    &&& key_fault(self@, key@) == Some(e)
                    &&& e matches CipherError::InvalidKeyCharacter(c) ==> key@.contains(c)
                        && !self@.contains(c)
                },
            },
            is_alphabet(self@),
    {
        proof {
            use_type_invariant(self);
        }
        if key.is_empty() {
            return Err(CipherError::EmptyKey);
        }
        let key_elements = match self.parse_string(key) {
            Ok(elements) => elements,
            Err(e) => {
                proof {
                    let j = choose|j: int|
                        is_first_foreign(self@, key@, j) && e == CipherError::InvalidKeyCharacter(
                            key@[j],
                        );
                    lemma_first_foreign_is_fault(self@, key@, j);
                }
                return Err(e);
            },
        };
        let chars = chars_of(text);
        let mut result = String::new();
        let mut key_index: usize = 0;
        for i in 0..chars.len()
            invariant
                self.well_formed(),
                chars@ == text@,
                key@.len() >= 1,
                key_fault(self@, key@) is None,
                key_elements@.len() == key@.len(),
                forall|j: int|
                    0 <= j < key@.len() ==> (#[trigger] key_elements@[j]).spec_index()
                        == self@.index_of(key@[j]),
                forall|j: int|
                    0 <= j < text@.len() && self@.contains(text@[j]) ==> call_requires(
                        operation,
                        #[trigger] shift_arguments(self@, text@, key@, j),
                    ),
                forall|j: int, r: usize|
                    0 <= j < text@.len() && self@.contains(text@[j]) && #[trigger] call_ensures(
                        operation,
                        shift_arguments(self@, text@, key@, j),
                        r,
                    ) ==> r < self@.len(),
                key_index == key_cursor(self@, text@, i as int),
                key_index <= i,
                result@.len() == i,
                forall|j: int|
                    0 <= j < i ==> char_placed_by(
                        operation,
                        self@,
                        text@,
                        key@,
                        j,
                        #[trigger] result@[j],
                    ),
        {
            let ch = chars[i];
            match self.find(ch) {
                Some(element) => {
                    let key_element = &key_elements[key_index % key_elements.len()];
                    assert(shift_arguments(self@, text@, key@, i as int) == (
                        element.spec_index(),
                        key_element.spec_index(),
                        self.modulus,
                    ));
                    let new_index = operation(element.index(), key_element.index(), self.modulus);
                    let shifted = self.charset[new_index].value();
                    assert(shifted == self@[new_index as int]);
                    assert(char_placed_by(operation, self@, text@, key@, i as int, shifted));
                    result.push(shifted);
                    key_index += 1;
                },
                None => {
                    assert(char_placed_by(operation, self@, text@, key@, i as int, ch));
                    result.push(ch);
                },
            }
        }
        Ok(result)
    }

    /// Encrypts `plaintext` under `key`.
    ///
    /// Fails if `key` is empty or holds a character that is not in the
    /// set; nothing is produced then. Characters of `plaintext` that are
    /// not in the set are kept as they are and use up no key character.
    pub fn encrypt(&self, plaintext: &str, key: &str) -> (done: Result<String, CipherError>)
        ensures
            match done {
                Ok(out) => encrypt_outcome(self@, plaintext@, key@) == Ok::<Seq<char>, CipherError>(
                    out@,
                ),
                Err(e) => encrypt_outcome(self@, plaintext@, key@) == Err::<Seq<char>, CipherError>(
                    e,
                ),
            },
            is_alphabet(self@),
            key@.len() == 0 ==> (done matches Err(e) && e == CipherError::EmptyKey),
            key@.len() > 0 && !all_known(self@, key@) ==> (done matches Err(
                CipherError::InvalidKeyCharacter(c),
            ) && key@.contains(c) && !self@.contains(c)),
            key@.len() > 0 && all_known(self@, key@) ==> done is Ok,
            done matches Ok(out) ==> out@.len() == plaintext@.len(),
            done matches Ok(out) ==> forall|i: int|
                0 <= i < plaintext@.len() && !self@.contains(plaintext@[i]) ==> out@[i]
                    == plaintext@[i],
    {
        proof {
            use_type_invariant(self);
        }
        let done = self.transform(plaintext, key, forward_index);
        proof {
            if done is Ok {
                let out = done->Ok_0@;
                assert forall|i: int| 0 <= i < plaintext@.len() implies out[i] == encrypted_char(
                    self@,
                    plaintext@,
                    key@,
                    i,
                ) by {
                    assert(char_placed_by(forward_index, self@, plaintext@, key@, i, out[i]));
                    if self@.contains(plaintext@[i]) {
                        lemma_shift_arguments_in_set(self@, plaintext@, key@, i);
                    }
                }
                assert(out =~= encrypted_text(self@, plaintext@, key@));
            }
        }
        done
    }

    /// Decrypts `ciphertext` under `key`.
    ///
    /// Fails if `key` is empty or holds a character that is not in the
    /// set; nothing is produced then. Characters of `ciphertext` that are
    /// not in the set are kept as they are and use up no key character.
    pub fn decrypt(&self, ciphertext: &str, key: &str) -> (done: Result<String, CipherError>)
        ensures
            match done {
                Ok(out) => decrypt_outcome(self@, ciphertext@, key@) == Ok::<Seq<char>, CipherError>(
                    out@,
                ),
                Err(e) => decrypt_outcome(self@, ciphertext@, key@) == Err::<Seq<char>, CipherError>(
                    e,
                ),
            },
            is_alphabet(self@),
            key@.len() == 0 ==> (done matches Err(e) && e == CipherError::EmptyKey),
            key@.len() > 0 && !all_known(self@, key@) ==> (done matches Err(
                CipherError::InvalidKeyCharacter(c),
            ) && key@.contains(c) && !self@.contains(c)),
            key@.len() > 0 && all_known(self@, key@) ==> done is Ok,
            done matches Ok(out) ==> out@.len() == ciphertext@.len(),
            done matches Ok(out) ==> forall|i: int|
                0 <= i < ciphertext@.len() && !self@.contains(ciphertext@[i]) ==> out@[i]
                    == ciphertext@[i],
    {
        proof {
            use_type_invariant(self);
        }
        let done = self.transform(ciphertext, key, backward_index);
        proof {
            if done is Ok {
                let out = done->Ok_0@;
                assert forall|i: int| 0 <= i < ciphertext@.len() implies out[i] == decrypted_char(
                    self@,
                    ciphertext@,
                    key@,
                    i,
                ) by {
                    assert(char_placed_by(backward_index, self@, ciphertext@, key@, i, out[i]));
                    if self@.contains(ciphertext@[i]) {
                        lemma_shift_arguments_in_set(self@, ciphertext@, key@, i);
                    }
                }
                assert(out =~= decrypted_text(self@, ciphertext@, key@));
            }
        }
        done
    }
}

} // verus!
