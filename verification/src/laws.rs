//! What holds of the cipher as a whole: decrypting undoes encrypting,
//! characters outside the set pass through without disturbing the rest,
//! and the outcome depends on nothing but the arguments.
use crate::engine::{
    decrypted, drawn_from, encrypted, indexed_in_order, CipherElement, VigenereCipher,
};
use crate::error::CipherError;
use crate::modular::{
    lemma_backward_undoes_forward, lemma_forward_undoes_backward, lemma_shift_in_range,
    shift_backward, shift_forward,
};
use crate::text::{
    decrypted_char, decrypted_text, encrypted_char, encrypted_text, is_alphabet, key_char_at,
    key_cursor, StringCipher,
};
use vstd::prelude::*;

verus! {

/// Decrypting undoes encrypting: in a symbol set whose symbols sit at the
/// positions that their indices name, a sequence of symbols of the set,
/// encrypted under a non-empty key and decrypted under the same key, comes
/// back as it was. The key may hold any symbols.
pub proof fn lemma_decrypt_undoes_encrypt<T: CipherElement>(
    symbols: Seq<T>,
    plaintext: Seq<T>,
    key: Seq<T>,
)
    requires
        symbols.len() >= 1,
        indexed_in_order(symbols),
        drawn_from(symbols, plaintext),
        key.len() >= 1,
    ensures
        decrypted(symbols, encrypted(symbols, plaintext, key), key) == plaintext,
{
    let n = symbols.len() as int;
    let sent = encrypted(symbols, plaintext, key);
    let back = decrypted(symbols, sent, key);
    assert forall|i: int| 0 <= i < plaintext.len() implies back[i] == plaintext[i] by {
        let m = plaintext[i].spec_index() as int;
        let k = key[i % (key.len() as int)].spec_index() as int;
        lemma_shift_in_range(m, k, n);
        lemma_backward_undoes_forward(m, k, n);
        assert(sent[i] == symbols[shift_forward(m, k, n)]);
        assert(sent[i].spec_index() == shift_forward(m, k, n));
    }
    assert(back =~= plaintext);
}

/// Encrypting undoes decrypting: as [`lemma_decrypt_undoes_encrypt`], with
/// the two directions changing places.
pub proof fn lemma_encrypt_undoes_decrypt<T: CipherElement>(
    symbols: Seq<T>,
    ciphertext: Seq<T>,
    key: Seq<T>,
)
    requires
        symbols.len() >= 1,
        indexed_in_order(symbols),
        drawn_from(symbols, ciphertext),
        key.len() >= 1,
    ensures
        encrypted(symbols, decrypted(symbols, ciphertext, key), key) == ciphertext,
{
    let n = symbols.len() as int;
    let plain = decrypted(symbols, ciphertext, key);
    let back = encrypted(symbols, plain, key);
    assert forall|i: int| 0 <= i < ciphertext.len() implies back[i] == ciphertext[i] by {
        let c = ciphertext[i].spec_index() as int;
        let k = key[i % (key.len() as int)].spec_index() as int;
        lemma_shift_in_range(c, k, n);
        lemma_forward_undoes_backward(c, k, n);
        assert(plain[i] == symbols[shift_backward(c, k, n)]);
        assert(plain[i].spec_index() == shift_backward(c, k, n));
    }
    assert(back =~= ciphertext);
}

/// Both directions of the engine keep the length and give symbols of the
/// set only.
pub proof fn lemma_engine_output_in_set<T: CipherElement>(
    symbols: Seq<T>,
    input: Seq<T>,
    key: Seq<T>,
)
    requires
        symbols.len() >= 1,
        key.len() >= 1,
    ensures
        encrypted(symbols, input, key).len() == input.len(),
        decrypted(symbols, input, key).len() == input.len(),
        forall|i: int|
            0 <= i < input.len() ==> symbols.contains(#[trigger] encrypted(symbols, input, key)[i]),
        forall|i: int|
            0 <= i < input.len() ==> symbols.contains(#[trigger] decrypted(symbols, input, key)[i]),
{
    let n = symbols.len() as int;
    assert forall|i: int| 0 <= i < input.len() implies symbols.contains(
        #[trigger] encrypted(symbols, input, key)[i],
    ) && symbols.contains(#[trigger] decrypted(symbols, input, key)[i]) by {
        let m = input[i].spec_index() as int;
        let k = key[i % (key.len() as int)].spec_index() as int;
        lemma_shift_in_range(m, k, n);
        assert(symbols[shift_forward(m, k, n)] == encrypted(symbols, input, key)[i]);
        assert(symbols[shift_backward(m, k, n)] == decrypted(symbols, input, key)[i]);
    }
}

/// The engine's encryption is a function of the symbols, the input and
/// the key: two calls on ciphers with the same symbols, with the same
/// input and the same key, give the same symbols.
pub proof fn lemma_engine_encrypt_is_a_function<T: CipherElement>(
    one: VigenereCipher<T>,
    other: VigenereCipher<T>,
    plaintext: &[T],
    key: &[T],
    first: Vec<T>,
    second: Vec<T>,
)
    requires
        one@ == other@,
        call_ensures(VigenereCipher::<T>::encrypt_symbols, (&one, plaintext, key), first),
        call_ensures(VigenereCipher::<T>::encrypt_symbols, (&other, plaintext, key), second),
    ensures
        first@ == second@,
{
}

/// The engine's decryption is a function of the symbols, the input and
/// the key: two calls on ciphers with the same symbols, with the same
/// input and the same key, give the same symbols.
pub proof fn lemma_engine_decrypt_is_a_function<T: CipherElement>(
    one: VigenereCipher<T>,
    other: VigenereCipher<T>,
    ciphertext: &[T],
    key: &[T],
    first: Vec<T>,
    second: Vec<T>,
)
    requires
        one@ == other@,
        call_ensures(VigenereCipher::<T>::decrypt_symbols, (&one, ciphertext, key), first),
        call_ensures(VigenereCipher::<T>::decrypt_symbols, (&other, ciphertext, key), second),
    ensures
        first@ == second@,
{
}

/// A character of the set stands at one place only.
pub proof fn lemma_position_of(alphabet: Seq<char>, i: int)
    requires
        alphabet.no_duplicates(),
        0 <= i < alphabet.len(),
    ensures
        alphabet.contains(alphabet[i]),
        alphabet.index_of(alphabet[i]) == i,
{
    assert(alphabet.contains(alphabet[i]));
}

/// Both directions of the text cipher keep the length of the text, keep
/// each character that is not in the set where it was, and put a character
/// of the set where one was.
pub proof fn lemma_text_shape(alphabet: Seq<char>, text: Seq<char>, key: Seq<char>)
    requires
        is_alphabet(alphabet),
    ensures
        encrypted_text(alphabet, text, key).len() == text.len(),
        decrypted_text(alphabet, text, key).len() == text.len(),
        forall|i: int|
            0 <= i < text.len() && !alphabet.contains(text[i]) ==> {
                &&& #[trigger] encrypted_text(alphabet, text, key)[i] == text[i]
                &&& #[trigger] decrypted_text(alphabet, text, key)[i] == text[i]
            },
        forall|i: int|
            0 <= i < text.len() && alphabet.contains(text[i]) ==> {
                &&& alphabet.contains(#[trigger] encrypted_text(alphabet, text, key)[i])
                &&& alphabet.contains(#[trigger] decrypted_text(alphabet, text, key)[i])
            },
{
    let n = alphabet.len() as int;
    assert forall|i: int| 0 <= i < text.len() && alphabet.contains(text[i]) implies {
        &&& alphabet.contains(#[trigger] encrypted_text(alphabet, text, key)[i])
        &&& alphabet.contains(#[trigger] decrypted_text(alphabet, text, key)[i])
    } by {
        let m = alphabet.index_of(text[i]);
        let k = alphabet.index_of(key_char_at(alphabet, text, key, i));
        lemma_shift_in_range(m, k, n);
        assert(alphabet[shift_forward(m, k, n)] == encrypted_char(alphabet, text, key, i));
        assert(alphabet[shift_backward(m, k, n)] == decrypted_char(alphabet, text, key, i));
    }
}

/// Two texts that have characters of the set at the same places move the
/// key cursor alike.
pub proof fn lemma_cursor_follows_membership(
    alphabet: Seq<char>,
    a: Seq<char>,
    b: Seq<char>,
    i: int,
)
    requires
        0 <= i <= a.len(),
        a.len() == b.len(),
        forall|j: int| 0 <= j < a.len() ==> alphabet.contains(a[j]) == alphabet.contains(b[j]),
    ensures
        key_cursor(alphabet, a, i) == key_cursor(alphabet, b, i),
    decreases i,
{
    if i > 0 {
        lemma_cursor_follows_membership(alphabet, a, b, i - 1);
    }
}

/// Decrypting undoes encrypting on text: over a set of distinct
/// characters, any text encrypted under a non-empty key and decrypted
/// under the same key comes back as it was, whatever characters the text
/// holds.
pub proof fn lemma_text_decrypt_undoes_encrypt(
    alphabet: Seq<char>,
    text: Seq<char>,
    key: Seq<char>,
)
    requires
        is_alphabet(alphabet),
        key.len() >= 1,
    ensures
        decrypted_text(alphabet, encrypted_text(alphabet, text, key), key) == text,
{
    let n = alphabet.len() as int;
    let sent = encrypted_text(alphabet, text, key);
    let back = decrypted_text(alphabet, sent, key);
    lemma_text_shape(alphabet, text, key);
    assert forall|i: int| 0 <= i < text.len() implies back[i] == text[i] by {
        lemma_cursor_follows_membership(alphabet, text, sent, i);
        if alphabet.contains(text[i]) {
            let m = alphabet.index_of(text[i]);
            let k = alphabet.index_of(key_char_at(alphabet, text, key, i));
            lemma_shift_in_range(m, k, n);
            lemma_backward_undoes_forward(m, k, n);
            lemma_position_of(alphabet, shift_forward(m, k, n));
            assert(sent[i] == alphabet[shift_forward(m, k, n)]);
        }
    }
    assert(back =~= text);
}

/// Encrypting undoes decrypting on text: as
/// [`lemma_text_decrypt_undoes_encrypt`], with the two directions changing
/// places.
pub proof fn lemma_text_encrypt_undoes_decrypt(
    alphabet: Seq<char>,
    text: Seq<char>,
    key: Seq<char>,
)
    requires
        is_alphabet(alphabet),
        key.len() >= 1,
    ensures
        encrypted_text(alphabet, decrypted_text(alphabet, text, key), key) == text,
{
    let n = alphabet.len() as int;
    let plain = decrypted_text(alphabet, text, key);
    let back = encrypted_text(alphabet, plain, key);
    lemma_text_shape(alphabet, text, key);
    assert forall|i: int| 0 <= i < text.len() implies back[i] == text[i] by {
        lemma_cursor_follows_membership(alphabet, text, plain, i);
        if alphabet.contains(text[i]) {
            let c = alphabet.index_of(text[i]);
            let k = alphabet.index_of(key_char_at(alphabet, text, key, i));
            lemma_shift_in_range(c, k, n);
            lemma_forward_undoes_backward(c, k, n);
            lemma_position_of(alphabet, shift_backward(c, k, n));
            assert(plain[i] == alphabet[shift_backward(c, k, n)]);
        }
    }
    assert(back =~= text);
}

/// Putting a character that is not in the set into a text at place `at`
/// leaves the key cursor where it was for every place of the old text.
pub proof fn lemma_cursor_skips_foreign(
    alphabet: Seq<char>,
    text: Seq<char>,
    at: int,
    foreign: char,
    i: int,
)
    requires
        0 <= at <= text.len(),
        !alphabet.contains(foreign),
        0 <= i <= text.len(),
    ensures
        i <= at ==> key_cursor(alphabet, text.insert(at, foreign), i) == key_cursor(
            alphabet,
            text,
            i,
        ),
        i >= at ==> key_cursor(alphabet, text.insert(at, foreign), i + 1) == key_cursor(
            alphabet,
            text,
            i,
        ),
    decreases i,
{
    let longer = text.insert(at, foreign);
    if i > 0 {
        lemma_cursor_skips_foreign(alphabet, text, at, foreign, i - 1);
        if i <= at {
            assert(longer[i - 1] == text[i - 1]);
        } else {
            assert(longer[i] == text[i - 1]);
        }
    }
    if i == at {
        assert(longer[at] == foreign);
    }
}

/// A character that is not in the set passes through and takes no key
/// material: putting it into the text at any place puts it into the
/// encrypted text at that place, and every other character is encrypted as
/// it was without it.
pub proof fn lemma_foreign_passes_through_encrypt(
    alphabet: Seq<char>,
    text: Seq<char>,
    key: Seq<char>,
    at: int,
    foreign: char,
)
    requires
        0 <= at <= text.len(),
        !alphabet.contains(foreign),
    ensures
        encrypted_text(alphabet, text.insert(at, foreign), key) == encrypted_text(
            alphabet,
            text,
            key,
        ).insert(at, foreign),
{
    let longer = text.insert(at, foreign);
    let left = encrypted_text(alphabet, longer, key);
    let right = encrypted_text(alphabet, text, key).insert(at, foreign);
    assert forall|i: int| 0 <= i < longer.len() implies left[i] == right[i] by {
        if i < at {
            lemma_cursor_skips_foreign(alphabet, text, at, foreign, i);
            assert(longer[i] == text[i]);
        } else if i > at {
            lemma_cursor_skips_foreign(alphabet, text, at, foreign, i - 1);
            assert(longer[i] == text[i - 1]);
        } else {
            assert(longer[i] == foreign);
        }
    }
    assert(left =~= right);
}

/// As [`lemma_foreign_passes_through_encrypt`], for decrypting.
pub proof fn lemma_foreign_passes_through_decrypt(
    alphabet: Seq<char>,
    text: Seq<char>,
    key: Seq<char>,
    at: int,
    foreign: char,
)
    requires
        0 <= at <= text.len(),
        !alphabet.contains(foreign),
    ensures
        decrypted_text(alphabet, text.insert(at, foreign), key) == decrypted_text(
            alphabet,
            text,
            key,
        ).insert(at, foreign),
{
    let longer = text.insert(at, foreign);
    let left = decrypted_text(alphabet, longer, key);
    let right = decrypted_text(alphabet, text, key).insert(at, foreign);
    assert forall|i: int| 0 <= i < longer.len() implies left[i] == right[i] by {
        if i < at {
            lemma_cursor_skips_foreign(alphabet, text, at, foreign, i);
            assert(longer[i] == text[i]);
        } else if i > at {
            lemma_cursor_skips_foreign(alphabet, text, at, foreign, i - 1);
            assert(longer[i] == text[i - 1]);
        } else {
            assert(longer[i] == foreign);
        }
    }
    assert(left =~= right);
}

/// What a call of the text cipher gave, with the string taken as its
/// characters.
pub open spec fn outcome_chars(done: Result<String, CipherError>) -> Result<Seq<char>, CipherError> {
    match done {
        Ok(out) => Ok(out@),
        Err(e) => Err(e),
    }
}

/// Encrypting is a function of the character set, the text and the key:
/// two calls on ciphers with the same set, with the same text and the same
/// key, give the same outcome.
pub proof fn lemma_encrypt_is_a_function(
    one: StringCipher,
    other: StringCipher,
    text: &str,
    key: &str,
    first: Result<String, CipherError>,
    second: Result<String, CipherError>,
)
    requires
        one@ == other@,
        call_ensures(StringCipher::encrypt, (&one, text, key), first),
        call_ensures(StringCipher::encrypt, (&other, text, key), second),
    ensures
        outcome_chars(first) == outcome_chars(second),
{
}

/// Decrypting is a function of the character set, the text and the key:
/// two calls on ciphers with the same set, with the same text and the same
/// key, give the same outcome.
pub proof fn lemma_decrypt_is_a_function(
    one: StringCipher,
    other: StringCipher,
    text: &str,
    key: &str,
    first: Result<String, CipherError>,
    second: Result<String, CipherError>,
)
    requires
        one@ == other@,
        call_ensures(StringCipher::decrypt, (&one, text, key), first),
        call_ensures(StringCipher::decrypt, (&other, text, key), second),
    ensures
        outcome_chars(first) == outcome_chars(second),
{
}

} // verus!
