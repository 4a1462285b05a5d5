use cryptix::crypto::{pasted_key_complete, CryptoKey, ENCODED_KEY_LEN, TAG_LEN};
use cryptix::keytext::strip_key_whitespace;
use cryptix::CryptixError;

/// 75 'A's: the text of a bundle of 56 zero bytes.
fn zero_key_text() -> String {
    "A".repeat(75)
}

fn invalid_key_message(res: Result<CryptoKey, CryptixError>) -> String {
    match res {
        Err(CryptixError::InvalidKey(msg)) => msg,
        Err(other) => panic!("unexpected error {:?}", other),
        Ok(_) => panic!("key accepted"),
    }
}

#[test]
fn generated_key_text_has_the_encoded_length() {
    let (_key, text) = CryptoKey::generate().unwrap();
    assert_eq!(text.len(), ENCODED_KEY_LEN);
    assert_eq!(ENCODED_KEY_LEN, 75);
    assert!(text
        .chars()
        .all(|c| c.is_ascii_alphanumeric() || c == '-' || c == '_'));
}

#[test]
fn generated_keys_differ() {
    let (_a, text_a) = CryptoKey::generate().unwrap();
    let (_b, text_b) = CryptoKey::generate().unwrap();
    assert_ne!(text_a, text_b);
}

#[test]
fn generated_text_reads_back_as_the_same_key() {
    let (key, text) = CryptoKey::generate().unwrap();
    let again = CryptoKey::from_string(&text).unwrap();
    let plaintext = b"pixels of a secret picture".to_vec();
    let (ciphertext, tag) = key.encrypt(&plaintext);
    assert_eq!(again.decrypt(&ciphertext, &tag).unwrap(), plaintext);
    let (ciphertext2, tag2) = again.encrypt(&plaintext);
    assert_eq!(ciphertext, ciphertext2);
    assert_eq!(tag, tag2);
}

#[test]
fn key_text_with_line_breaks_and_spaces_reads_the_same() {
    let (key, text) = CryptoKey::generate().unwrap();
    let broken = format!("  {}\n{}\r\n\t{} ", &text[..20], &text[20..50], &text[50..]);
    let again = CryptoKey::from_string(&broken).unwrap();
    let (ciphertext, tag) = key.encrypt(b"abc");
    assert_eq!(again.decrypt(&ciphertext, &tag).unwrap(), b"abc".to_vec());
}

#[test]
fn key_from_parts_has_its_text() {
    let (_key, text) = CryptoKey::from_parts([0u8; 32], [0u8; 24]);
    assert_eq!(text, zero_key_text());
    let (_key, text) = CryptoKey::from_parts([0xffu8; 32], [0xffu8; 24]);
    assert_eq!(text, format!("{}8", "_".repeat(74)));
}

#[test]
fn key_from_parts_reads_back() {
    let mut key = [0u8; 32];
    let mut nonce = [0u8; 24];
    for i in 0..32 {
        key[i] = i as u8;
    }
    for i in 0..24 {
        nonce[i] = 200 - i as u8;
    }
    let (k, text) = CryptoKey::from_parts(key, nonce);
    let again = CryptoKey::from_string(&text).unwrap();
    let (c, t) = k.encrypt(b"parts");
    assert_eq!(again.decrypt(&c, &t).unwrap(), b"parts".to_vec());
}

#[test]
fn zero_key_text_is_accepted() {
    let key = CryptoKey::from_string(&zero_key_text()).unwrap();
    let (ciphertext, tag) = key.encrypt(&[0u8; 64]);
    assert_eq!(ciphertext.len(), 64);
    assert_ne!(ciphertext, vec![0u8; 64]);
    assert_eq!(tag.len(), TAG_LEN);
}

#[test]
fn non_base64_key_is_refused() {
    assert_eq!(invalid_key_message(CryptoKey::from_string("not*base64!")), "Improper Base64 format");
}

#[test]
fn padded_key_is_refused() {
    let text = format!("{}=", "A".repeat(75));
    assert_eq!(invalid_key_message(CryptoKey::from_string(&text)), "Improper Base64 format");
}

#[test]
fn standard_alphabet_symbols_are_refused() {
    let text = format!("{}+", "A".repeat(74));
    assert_eq!(invalid_key_message(CryptoKey::from_string(&text)), "Improper Base64 format");
}

#[test]
fn short_key_is_refused() {
    assert_eq!(
        invalid_key_message(CryptoKey::from_string("AAAA")),
        "Incorrect key length. Ensure you copied all lines."
    );
}

#[test]
fn long_key_is_refused() {
    assert_eq!(
        invalid_key_message(CryptoKey::from_string(&"A".repeat(76))),
        "Incorrect key length. Ensure you copied all lines."
    );
}

#[test]
fn empty_key_is_refused() {
    assert_eq!(
        invalid_key_message(CryptoKey::from_string(" \n ")),
        "Incorrect key length. Ensure you copied all lines."
    );
}

#[test]
fn ciphertext_keeps_the_plaintext_length() {
    let (key, _) = CryptoKey::generate().unwrap();
    for len in [0usize, 1, 15, 16, 17, 63, 64, 65, 1000] {
        let plaintext = vec![7u8; len];
        let (ciphertext, tag) = key.encrypt(&plaintext);
        assert_eq!(ciphertext.len(), len);
        assert_eq!(tag.len(), 16);
        assert_eq!(key.decrypt(&ciphertext, &tag).unwrap(), plaintext);
    }
}

#[test]
fn encryption_changes_the_bytes() {
    let key = CryptoKey::from_string(&zero_key_text()).unwrap();
    let plaintext = b"The quick brown fox jumps over the lazy dog".to_vec();
    let (ciphertext, _tag) = key.encrypt(&plaintext);
    assert_ne!(ciphertext, plaintext);
}

#[test]
fn tampered_ciphertext_is_detected() {
    let (key, _) = CryptoKey::generate().unwrap();
    let (mut ciphertext, tag) = key.encrypt(b"untouchable pixels");
    ciphertext[3] ^= 1;
    assert!(matches!(key.decrypt(&ciphertext, &tag), Err(CryptixError::TamperedData)));
}

#[test]
fn tampered_tag_is_detected() {
    let (key, _) = CryptoKey::generate().unwrap();
    let (ciphertext, mut tag) = key.encrypt(b"untouchable pixels");
    tag[15] ^= 0x80;
    assert!(matches!(key.decrypt(&ciphertext, &tag), Err(CryptixError::TamperedData)));
}

#[test]
fn wrong_key_is_detected() {
    let (key, _) = CryptoKey::generate().unwrap();
    let (other, _) = CryptoKey::generate().unwrap();
    let (ciphertext, tag) = key.encrypt(b"for one key only");
    assert!(matches!(other.decrypt(&ciphertext, &tag), Err(CryptixError::TamperedData)));
}

#[test]
fn whitespace_is_stripped_from_pasted_text() {
    assert_eq!(strip_key_whitespace(" ab\ncd\r\n\tef "), "abcdef");
    assert_eq!(strip_key_whitespace(""), "");
    assert_eq!(strip_key_whitespace("x\u{a0}y"), "x\u{a0}y");
}

#[test]
fn pasted_key_is_complete_at_the_encoded_length() {
    let text = "A".repeat(75);
    assert!(pasted_key_complete(&text));
    assert!(!pasted_key_complete(&text[..74]));
    assert!(!pasted_key_complete(&format!("{}\n {}", &text[..40], &text[40..74])));
    assert!(pasted_key_complete(&format!("{}\n{}", &text[..40], &text[40..])));
    assert!(!pasted_key_complete(""));
}

#[test]
fn pasted_key_length_counts_utf8_bytes() {
    // 37 two-byte characters are 74 bytes, 38 are 76.
    assert!(!pasted_key_complete(&"é".repeat(37)));
    assert!(pasted_key_complete(&"é".repeat(38)));
}

#[test]
fn ciphertexts_xor_as_plaintexts() {
    let (key, _) = CryptoKey::generate().unwrap();
    let p1 = b"first message of 24 byte".to_vec();
    let p2 = b"another one, same length".to_vec();
    let (c1, _) = key.encrypt(&p1);
    let (c2, _) = key.encrypt(&p2);
    for i in 0..p1.len() {
        assert_eq!(c1[i] ^ c2[i], p1[i] ^ p2[i]);
    }
}
