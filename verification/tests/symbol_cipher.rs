use vigenere_demo::{
    CharElement, CipherElement, DigitElement, NonEmptySliceRef, NonEmptyVec, VigenereCipher,
};

fn letters() -> Vec<CharElement> {
    "ABCDEFGHIJKLMNOPQRSTUVWXYZ"
        .chars()
        .enumerate()
        .map(|(i, c)| CharElement::new(c, i))
        .collect()
}

fn digits() -> Vec<DigitElement> {
    (0..10).map(|i| DigitElement::new(i).unwrap()).collect()
}

fn pick(set: &[CharElement], word: &str) -> Vec<CharElement> {
    word.chars()
        .map(|c| set.iter().find(|e| e.value() == c).unwrap().clone())
        .collect()
}

fn spell(symbols: &[CharElement]) -> String {
    symbols.iter().map(|e| e.value()).collect()
}

#[test]
fn test_generic_cipher_with_char_elements() {
    let charset: Vec<CharElement> = "ABCDEFGHIJKLMNOPQRSTUVWXYZ"
        .chars()
        .enumerate()
        .map(|(i, c)| CharElement::new(c, i))
        .collect();

    let cipher = VigenereCipher::new(NonEmptyVec::try_from_vec(charset.clone()).unwrap());

    // H=7, E=4, L=11, L=11, O=14
    // K=10, E=4, Y=24
    let plaintext = vec![
        charset[7].clone(),
        charset[4].clone(),
        charset[11].clone(),
        charset[11].clone(),
        charset[14].clone(),
    ];

    let key = vec![charset[10].clone(), charset[4].clone(), charset[24].clone()];

    let encrypted = cipher.encrypt(&plaintext, NonEmptySliceRef::new(key.as_slice()).unwrap());

    // R=17, I=8, J=9, V=21, S=18
    assert_eq!(encrypted[0].value(), 'R');
    assert_eq!(encrypted[1].value(), 'I');
    assert_eq!(encrypted[2].value(), 'J');
    assert_eq!(encrypted[3].value(), 'V');
    assert_eq!(encrypted[4].value(), 'S');

    let decrypted = cipher.decrypt(&encrypted, NonEmptySliceRef::new(key.as_slice()).unwrap());
    assert_eq!(decrypted[0].value(), 'H');
    assert_eq!(decrypted[1].value(), 'E');
    assert_eq!(decrypted[2].value(), 'L');
    assert_eq!(decrypted[3].value(), 'L');
    assert_eq!(decrypted[4].value(), 'O');
}

#[test]
fn test_generic_cipher_with_digit_elements() {
    let charset: Vec<DigitElement> = (0..10).map(|i| DigitElement::new(i).unwrap()).collect();

    let cipher = VigenereCipher::new(NonEmptyVec::try_from_vec(charset.clone()).unwrap());

    let plaintext = vec![charset[1].clone(), charset[2].clone(), charset[3].clone()];

    let key = vec![charset[4].clone(), charset[5].clone(), charset[6].clone()];

    let encrypted = cipher.encrypt(&plaintext, NonEmptySliceRef::new(key.as_slice()).unwrap());

    // (1+4)%10=5, (2+5)%10=7, (3+6)%10=9
    assert_eq!(encrypted[0].to_char(), '5');
    assert_eq!(encrypted[1].to_char(), '7');
    assert_eq!(encrypted[2].to_char(), '9');

    let decrypted = cipher.decrypt(&encrypted, NonEmptySliceRef::new(key.as_slice()).unwrap());
    assert_eq!(decrypted[0].to_char(), '1');
    assert_eq!(decrypted[1].to_char(), '2');
    assert_eq!(decrypted[2].to_char(), '3');
}

#[test]
fn test_cipher_element_index() {
    let elem = CharElement::new('A', 0);
    assert_eq!(elem.index(), 0);
    assert_eq!(elem.value(), 'A');

    let elem2 = CharElement::new('Z', 25);
    assert_eq!(elem2.index(), 25);
    assert_eq!(elem2.value(), 'Z');
}

#[test]
fn test_digit_element() {
    let digit = DigitElement::new(5).unwrap();
    assert_eq!(digit.index(), 5);
    assert_eq!(digit.to_char(), '5');
    assert_eq!(digit.value(), 5);

    assert!(DigitElement::new(10).is_none());
    assert!(DigitElement::new(0).is_some());
    assert!(DigitElement::new(9).is_some());
}

#[test]
fn digit_symbols_cover_zero_to_nine_only() {
    let shown: String = (0..10).map(|d| DigitElement::new(d).unwrap().to_char()).collect();
    assert_eq!(shown, "0123456789");
    for value in 10..=255u8 {
        assert!(DigitElement::new(value).is_none());
    }
    for value in 0..10u8 {
        let digit = DigitElement::new(value).unwrap();
        assert_eq!(digit.index(), value as usize);
        assert_eq!(digit.value(), value);
        assert_eq!(digit.clone(), digit);
    }
}

#[test]
fn char_symbol_keeps_what_it_was_given() {
    let element = CharElement::new('√', usize::MAX);
    assert_eq!(element.value(), '√');
    assert_eq!(element.index(), usize::MAX);
    assert_eq!(element.clone(), element);
    assert_ne!(element, CharElement::new('√', 0));
}

#[test]
fn cipher_holds_the_items_of_the_non_empty_vector() {
    let set = letters();
    let cipher = VigenereCipher::new(NonEmptyVec::try_from_vec(set.clone()).unwrap());
    assert_eq!(cipher.modulus(), 26);
    assert_eq!(cipher.charset(), set.as_slice());
    let built = VigenereCipher::new(NonEmptyVec::new(set[3].clone(), vec![set[1].clone()]));
    assert_eq!(built.modulus(), 2);
    assert_eq!(spell(built.charset()), "DB");
    let single = VigenereCipher::new(NonEmptyVec::from_single(DigitElement::new(7).unwrap()));
    assert_eq!(single.modulus(), 1);
    assert_eq!(single.charset()[0].to_char(), '7');
}

#[test]
fn cipher_from_plain_symbols_needs_one_at_least() {
    assert!(VigenereCipher::<CharElement>::from_symbols(Vec::new()).is_none());
    assert!(VigenereCipher::<DigitElement>::from_symbols(Vec::new()).is_none());
    let cipher = VigenereCipher::from_symbols(digits()).unwrap();
    assert_eq!(cipher.modulus(), 10);
    assert_eq!(cipher.charset(), digits().as_slice());
}

#[test]
fn plain_slices_give_what_non_empty_slices_give() {
    let set = letters();
    let cipher = VigenereCipher::from_symbols(set.clone()).unwrap();
    let text = pick(&set, "ATTACKATDAWN");
    let key = pick(&set, "LEMON");
    let sent = cipher.encrypt_symbols(&text, &key);
    assert_eq!(spell(&sent), "LXFOPVEFRNHR");
    assert_eq!(sent, cipher.encrypt(&text, NonEmptySliceRef::new(&key).unwrap()));
    let back = cipher.decrypt_symbols(&sent, &key);
    assert_eq!(back, text);
    assert_eq!(back, cipher.decrypt(&sent, NonEmptySliceRef::new(&key).unwrap()));
}

#[test]
fn result_depends_on_the_key_handed_in() {
    let set = letters();
    let cipher = VigenereCipher::from_symbols(set.clone()).unwrap();
    let text = pick(&set, "HELLO");
    let one = pick(&set, "KEY");
    let other = pick(&set, "B");
    let first = cipher.encrypt(&text, NonEmptySliceRef::new(&one).unwrap());
    let second = cipher.encrypt(&text, NonEmptySliceRef::new(&other).unwrap());
    assert_eq!(spell(&first), "RIJVS");
    assert_eq!(spell(&second), "IFMMP");
    assert_ne!(first, text);
    assert_eq!(spell(&cipher.decrypt(&second, NonEmptySliceRef::new(&other).unwrap())), "HELLO");
}

#[test]
fn empty_input_gives_empty_output() {
    let set = letters();
    let cipher = VigenereCipher::from_symbols(set.clone()).unwrap();
    let key = pick(&set, "KEY");
    assert!(cipher.encrypt_symbols(&[], &key).is_empty());
    assert!(cipher.decrypt_symbols(&[], &key).is_empty());
    assert!(cipher.encrypt(&[], NonEmptySliceRef::new(&key).unwrap()).is_empty());
}

#[test]
fn symbols_decrypt_back_to_what_was_encrypted() {
    let set = letters();
    let cipher = VigenereCipher::from_symbols(set.clone()).unwrap();
    let key = pick(&set, "ZEBRA");
    for word in ["A", "Z", "ZZZZZZZZ", "THEQUICKBROWNFOXJUMPSOVERTHELAZYDOG"] {
        let text = pick(&set, word);
        let sent = cipher.encrypt_symbols(&text, &key);
        assert_eq!(sent.len(), text.len());
        assert_eq!(cipher.decrypt_symbols(&sent, &key), text);
        let plain = cipher.decrypt_symbols(&text, &key);
        assert_eq!(cipher.encrypt_symbols(&plain, &key), text);
    }
}

#[test]
fn digits_wrap_around_ten() {
    let set = digits();
    let cipher = VigenereCipher::from_symbols(set.clone()).unwrap();
    let text = vec![set[9].clone(), set[8].clone(), set[0].clone()];
    let key = vec![set[1].clone(), set[5].clone()];
    let sent = cipher.encrypt_symbols(&text, &key);
    let shown: String = sent.iter().map(|d| d.to_char()).collect();
    assert_eq!(shown, "031");
    let back = cipher.decrypt_symbols(&sent, &key);
    let shown: String = back.iter().map(|d| d.to_char()).collect();
    assert_eq!(shown, "980");
    // 0 - 5 goes below zero before the modulus is added.
    let low = cipher.decrypt_symbols(&[set[0].clone()], &[set[5].clone()]);
    assert_eq!(low[0].value(), 5);
}

#[test]
fn indices_beyond_the_set_are_reduced() {
    let set = letters();
    let cipher = VigenereCipher::from_symbols(set.clone()).unwrap();
    let far = CharElement::new('?', 26 * 4 + 2);
    let huge = CharElement::new('!', usize::MAX);
    let step = usize::MAX % 26;
    let sent = cipher.encrypt_symbols(&[far.clone(), set[0].clone()], &[set[1].clone(), huge.clone()]);
    assert_eq!(sent[0].value(), 'D');
    assert_eq!(sent[1].index(), step);
    let both = cipher.encrypt_symbols(&[huge.clone()], &[huge.clone()]);
    assert_eq!(both[0].index(), (2 * step) % 26);
    let back = cipher.decrypt_symbols(&[set[0].clone()], &[huge]);
    assert_eq!(back[0].index(), (26 - step) % 26);
}

#[test]
fn output_is_the_symbol_at_the_place_not_the_one_with_the_index() {
    // A set whose symbols do not sit where their indices say.
    let set = vec![CharElement::new('x', 1), CharElement::new('y', 0)];
    let cipher = VigenereCipher::from_symbols(set.clone()).unwrap();
    let sent = cipher.encrypt_symbols(&[set[0].clone()], &[set[1].clone()]);
    // index 1 + index 0 = 1: the symbol at place 1 is 'y'.
    assert_eq!(sent[0].value(), 'y');
}

#[test]
fn a_clone_of_a_cipher_holds_the_same_symbols() {
    let set = letters();
    let cipher = VigenereCipher::from_symbols(set.clone()).unwrap();
    let copy = cipher.clone();
    assert_eq!(copy.modulus(), cipher.modulus());
    assert_eq!(copy.charset(), cipher.charset());
    let text = pick(&set, "HELLO");
    let key = pick(&set, "KEY");
    assert_eq!(copy.encrypt_symbols(&text, &key), cipher.encrypt_symbols(&text, &key));
}

#[test]
fn calls_with_the_same_symbols_agree() {
    let set = letters();
    let one = VigenereCipher::from_symbols(set.clone()).unwrap();
    let other = VigenereCipher::new(NonEmptyVec::try_from_vec(set.clone()).unwrap());
    let text = pick(&set, "DETERMINISM");
    let key = pick(&set, "KEY");
    let first = one.encrypt_symbols(&text, &key);
    assert_eq!(first, one.encrypt_symbols(&text, &key));
    assert_eq!(first, other.encrypt_symbols(&text, &key));
    assert_eq!(one.decrypt_symbols(&text, &key), other.decrypt_symbols(&text, &key));
}
