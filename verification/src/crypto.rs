//! Key bundles: a 256-bit XChaCha20-Poly1305 key with its 192-bit nonce, the
//! Base64 text that carries them, and sealing and opening byte buffers.

use crate::error::CryptixError;
use crate::keytext::{
    decode_url_safe, encode_url_safe, is_key_whitespace, is_url_safe_symbol, lemma_strip_keeps_clean_text,
    strip_key_whitespace, url_safe_decoding, url_safe_encoding, without_key_whitespace,
};
use crate::primitives::{
    fill_random, wipe, within_cipher_limit, xchacha_decrypt, xchacha_encrypt, xchacha_keystream_byte,
    xchacha_open,
    xchacha_seal,
};
use vstd::prelude::*;
use vstd::string::*;
use vstd::utf8::{encode_scalar, encode_utf8};

verus! {

const KEY_LEN: usize = 32;

const NONCE_LEN: usize = 24;

const BUNDLE_LEN: usize = KEY_LEN + NONCE_LEN;

/// Length of the text form of a key bundle.
pub const ENCODED_KEY_LEN: usize = 75;

/// The Poly1305 authentication tag length in bytes.
pub const TAG_LEN: usize = 16;

/// The secret material of a key: the cipher key and the nonce.
#[verifier::ext_equal]
pub ghost struct KeyMaterial {
    pub key: Seq<u8>,
    pub nonce: Seq<u8>,
}

/// A secret key and nonce. Both are wiped from memory when the value is dropped.
pub struct CryptoKey {
    key: [u8; KEY_LEN],
    nonce: [u8; NONCE_LEN],
}

impl View for CryptoKey {
    type V = KeyMaterial;

    closed spec fn view(&self) -> KeyMaterial {
        KeyMaterial { key: self.key@, nonce: self.nonce@ }
    }
}

/// Every key holds a 32-byte key and a 24-byte nonce.
pub proof fn lemma_key_material_lengths(k: &CryptoKey)
    ensures
        k@.key.len() == 32,
        k@.nonce.len() == 24,
{
}

/// The message of `InvalidKey` for a text that is not Base64.
pub open spec fn bad_encoding_message() -> Seq<char> {
    "Improper Base64 format"@
}

/// The message of `InvalidKey` for a text that decodes to the wrong number of bytes.
pub open spec fn bad_length_message() -> Seq<char> {
    "Incorrect key length. Ensure you copied all lines."@
}

/// What a key text stands for: the key material that its bundle holds (the
/// first 32 bytes the key, the last 24 the nonce), or the message saying why
/// it is refused. Whitespace in the text is ignored.
pub open spec fn key_text_outcome(text: Seq<char>) -> Result<KeyMaterial, Seq<char>> {
    match url_safe_decoding(without_key_whitespace(text)) {
        None => Err(bad_encoding_message()),
        Some(bundle) => if bundle.len() == 56 {
            Ok(KeyMaterial { key: bundle.take(32), nonce: bundle.skip(32) })
        } else {
            Err(bad_length_message())
        },
    }
}

/// The bundle of a key: key followed by nonce.
pub open spec fn bundle_of(m: KeyMaterial) -> Seq<u8> {
    m.key + m.nonce
}

impl CryptoKey {
    /// What the cipher returns for `plaintext` under this key and nonce:
    /// ciphertext followed by tag.
    pub open spec fn sealed(&self, plaintext: Seq<u8>) -> Seq<u8> {
        xchacha_seal(self@.key, self@.nonce, plaintext)
    }

    /// What the cipher recovers from `ciphertext` and `tag` under this key and
    /// nonce, or `None` where the tag does not authenticate them.
    pub open spec fn opened(&self, ciphertext: Seq<u8>, tag: Seq<u8>) -> Option<Seq<u8>> {
        xchacha_open(self@.key, self@.nonce, ciphertext + tag)
    }

    /// Byte `i` of the keystream that this key and nonce XOR with a message.
    pub open spec fn keystream_byte(&self, i: nat) -> u8 {
        xchacha_keystream_byte(self@.key, self@.nonce, i)
    }

    /// Makes a key of the given key bytes and nonce bytes, and returns it with
    /// its text form: the URL-safe, unpadded Base64 of key followed by nonce,
    /// 75 characters long. Reading that text back with `from_string` gives the
    /// same key and nonce.
    pub fn from_parts(key: [u8; KEY_LEN], nonce: [u8; NONCE_LEN]) -> (res: (Self, String))
        ensures
            res.0@.key == key@,
            res.0@.nonce == nonce@,
            res.1@ == url_safe_encoding(key@ + nonce@),
            res.1@.len() == ENCODED_KEY_LEN,
            forall|i: int| 0 <= i < res.1@.len() ==> is_url_safe_symbol(#[trigger] res.1@[i]),
            key_text_outcome(res.1@) == Ok::<KeyMaterial, Seq<char>>(res.0@),
    {
        let mut bundle = [0u8; 56];
        let mut i: usize = 0;
        while i < KEY_LEN
            invariant
                i <= KEY_LEN,
                forall|j: int| 0 <= j < i ==> bundle[j] == key[j],
            decreases KEY_LEN - i,
        {
            bundle[i] = key[i];
            i = i + 1;
        }
        let mut i: usize = 0;
        while i < NONCE_LEN
            invariant
                i <= NONCE_LEN,
                forall|j: int| 0 <= j < KEY_LEN ==> bundle[j] == key[j],
                forall|j: int| 0 <= j < i ==> bundle[KEY_LEN + j] == nonce[j],
            decreases NONCE_LEN - i,
        {
            bundle[KEY_LEN + i] = nonce[i];
            i = i + 1;
        }
        let k = CryptoKey { key, nonce };
        assert(bundle@ =~= bundle_of(k@));
        let encoded = encode_url_safe(bundle.as_slice());
        wipe(&mut bundle);
        proof {
            lemma_strip_keeps_clean_text(encoded@);
            assert(bundle_of(k@).take(32) =~= k@.key);
            assert(bundle_of(k@).skip(32) =~= k@.nonce);
        }
        (k, encoded)
    }

    /// Makes a fresh key and nonce from the operating system's random source
    /// (32 bytes of key, then 24 of nonce) and returns them as `from_parts`
    /// does. Fails with `Io` when the random source fails.
    pub fn generate() -> (res: Result<(Self, String), CryptixError>)
        ensures
            match res {
                Ok((k, text)) => {
                    &&& text@ == url_safe_encoding(bundle_of(k@))
                    &&& text@.len() == ENCODED_KEY_LEN
                    &&& forall|i: int| 0 <= i < text@.len() ==> is_url_safe_symbol(#[trigger] text@[i])
                    &&& key_text_outcome(text@) == Ok::<KeyMaterial, Seq<char>>(k@)
                },
                Err(e) => e is Io,
            },
    {
        let mut key = [0u8; 32];
        let mut nonce = [0u8; 24];
        if let Err(e) = fill_random(&mut key) {
            wipe(&mut key);
            return Err(CryptixError::Io(e));
        }
        if let Err(e) = fill_random(&mut nonce) {
            wipe(&mut key);
            return Err(CryptixError::Io(e));
        }
        Ok(Self::from_parts(key, nonce))
    }

    /// Reads a key from its text form, ignoring line feeds, carriage returns,
    /// spaces and tabs. Fails with `InvalidKey` when the rest is not URL-safe
    /// unpadded Base64, or does not decode to exactly 56 bytes.
    pub fn from_string(encoded: &str) -> (res: Result<Self, CryptixError>)
        ensures
            match key_text_outcome(encoded@) {
                Ok(m) => res matches Ok(k) && k@ == m,
                Err(msg) => res matches Err(CryptixError::InvalidKey(text)) && text@ == msg,
            },
            res matches Ok(k) ==> url_safe_encoding(bundle_of(k@)) == without_key_whitespace(encoded@),
    {
        let clean = strip_key_whitespace(encoded);
        let decoded = match decode_url_safe(clean.as_str()) {
            Ok(d) => d,
            Err(_) => {
                return Err(CryptixError::InvalidKey("Improper Base64 format".to_string()));
            },
        };
        if decoded.len() != BUNDLE_LEN {
            return Err(
                CryptixError::InvalidKey(
                    "Incorrect key length. Ensure you copied all lines.".to_string(),
                ),
            );
        }
        let mut key = [0u8; 32];
        let mut nonce = [0u8; 24];
        let mut i: usize = 0;
        while i < KEY_LEN
            invariant
                i <= KEY_LEN,
                decoded@.len() == BUNDLE_LEN,
                forall|j: int| 0 <= j < i ==> key[j] == decoded@[j],
            decreases KEY_LEN - i,
        {
            key[i] = decoded[i];
            i = i + 1;
        }
        let mut i: usize = 0;
        while i < NONCE_LEN
            invariant
                i <= NONCE_LEN,
                decoded@.len() == BUNDLE_LEN,
                forall|j: int| 0 <= j < KEY_LEN ==> key[j] == decoded@[j],
                forall|j: int| 0 <= j < i ==> nonce[j] == decoded@[KEY_LEN + j],
            decreases NONCE_LEN - i,
        {
            nonce[i] = decoded[KEY_LEN + i];
            i = i + 1;
        }
        let k = CryptoKey { key, nonce };
        assert(k@.key =~= decoded@.take(32));
        assert(k@.nonce =~= decoded@.skip(32));
        assert(bundle_of(k@) =~= decoded@);
        Ok(k)
    }

    /// Encrypts plaintext bytes using XChaCha20-Poly1305 (AEAD).
    ///
    /// Returns the ciphertext, of the same length as the plaintext, and the
    /// 16-byte Poly1305 tag; together they are what the cipher returns. The
    /// ciphertext is the plaintext XORed with the key's keystream, and
    /// decrypting it with this key gives back the plaintext.
    pub fn encrypt(&self, plaintext: &[u8]) -> (res: (Vec<u8>, [u8; TAG_LEN]))
        requires
            within_cipher_limit(plaintext@.len()),
        ensures
            res.0@ + res.1@ == self.sealed(plaintext@),
            res.0@.len() == plaintext@.len(),
            forall|i: int|
                0 <= i < plaintext@.len() ==> #[trigger] res.0@[i] == plaintext@[i] ^ self.keystream_byte(i as nat),
            self.opened(res.0@, res.1@) == Some(plaintext@),
    {
        let mut combined = xchacha_encrypt(&self.key, &self.nonce, plaintext);
        let ghost sealed = combined@;
        let tag_start = combined.len() - TAG_LEN;
        let tail = combined.split_off(tag_start);
        let mut tag = [0u8; 16];
        let mut i: usize = 0;
        while i < TAG_LEN
            invariant
                i <= TAG_LEN,
                tail@.len() == TAG_LEN,
                forall|j: int| 0 <= j < i ==> tag[j] == tail@[j],
            decreases TAG_LEN - i,
        {
            tag[i] = tail[i];
            i = i + 1;
        }
        assert(tag@ =~= tail@);
        assert(combined@ + tag@ =~= sealed);
        (combined, tag)
    }

    /// Decrypts ciphertext using XChaCha20-Poly1305 (AEAD) with tag verification.
    ///
    /// Returns the plaintext when the tag authenticates the ciphertext under
    /// this key, and `TamperedData` otherwise; a ciphertext longer than the
    /// cipher handles is reported as `TamperedData` too.
    pub fn decrypt(&self, ciphertext: &[u8], tag: &[u8; TAG_LEN]) -> (res: Result<Vec<u8>, CryptixError>)
        ensures
            !within_cipher_limit(ciphertext@.len()) ==> res matches Err(CryptixError::TamperedData),
            within_cipher_limit(ciphertext@.len()) ==> match self.opened(ciphertext@, tag@) {
                Some(p) => res matches Ok(v) && v@ == p,
                None => res matches Err(CryptixError::TamperedData),
            },
            res matches Ok(v) ==> v@.len() == ciphertext@.len() && self.sealed(v@) == ciphertext@ + tag@,
    {
        if ciphertext.len() as u64 > 64 * 0xffff_fffeu64 {
            return Err(CryptixError::TamperedData);
        }
        let mut combined: Vec<u8> = Vec::new();
        combined.extend_from_slice(ciphertext);
        combined.extend_from_slice(tag.as_slice());
        assert(combined@ =~= ciphertext@ + tag@);
        match xchacha_decrypt(&self.key, &self.nonce, combined.as_slice()) {
            Ok(p) => Ok(p),
            Err(_) => Err(CryptixError::TamperedData),
        }
    }
}

/// Two messages of the same length encrypted with the same key: their
/// ciphertexts XOR to what their plaintexts XOR to, as both are XORed with
/// one keystream.
pub proof fn lemma_ciphertexts_xor_as_plaintexts(
    k: &CryptoKey,
    p1: Seq<u8>,
    c1: Seq<u8>,
    p2: Seq<u8>,
    c2: Seq<u8>,
)
    requires
        p1.len() == p2.len(),
        c1.len() == p1.len(),
        c2.len() == p2.len(),
        forall|i: int| 0 <= i < p1.len() ==> #[trigger] c1[i] == p1[i] ^ k.keystream_byte(i as nat),
        forall|i: int| 0 <= i < p2.len() ==> #[trigger] c2[i] == p2[i] ^ k.keystream_byte(i as nat),
    ensures
        forall|i: int| 0 <= i < p1.len() ==> (#[trigger] c1[i]) ^ c2[i] == p1[i] ^ p2[i],
{
    assert forall|i: int| 0 <= i < p1.len() implies (#[trigger] c1[i]) ^ c2[i] == p1[i] ^ p2[i] by {
        let (a, b, x) = (p1[i], p2[i], k.keystream_byte(i as nat));
        assert((a ^ x) ^ (b ^ x) == a ^ b) by (bit_vector);
    }
}

/// Whitespace anywhere in a key text is ignored: inserting line feeds,
/// carriage returns, spaces and tabs into a text does not change the key it
/// stands for, nor the reason it is refused.
pub proof fn lemma_key_text_ignores_whitespace(before: Seq<char>, gap: Seq<char>, after: Seq<char>)
    requires
        forall|i: int| 0 <= i < gap.len() ==> is_key_whitespace(#[trigger] gap[i]),
    ensures
        key_text_outcome(before + gap + after) == key_text_outcome(before + after),
{
    let keep = |c: char| !is_key_whitespace(c);
    lemma_whitespace_strips_to_nothing(gap);
    Seq::filter_distributes_over_add(before + gap, after, keep);
    Seq::filter_distributes_over_add(before, gap, keep);
    Seq::filter_distributes_over_add(before, after, keep);
    assert(without_key_whitespace(before) + without_key_whitespace(gap) =~= without_key_whitespace(before));
}

proof fn lemma_whitespace_strips_to_nothing(gap: Seq<char>)
    requires
        forall|i: int| 0 <= i < gap.len() ==> is_key_whitespace(#[trigger] gap[i]),
    ensures
        without_key_whitespace(gap) =~= Seq::<char>::empty(),
    decreases gap.len(),
{
    if gap.len() > 0 {
        let init = gap.drop_last();
        assert forall|i: int| 0 <= i < init.len() implies is_key_whitespace(#[trigger] init[i]) by {
            assert(init[i] == gap[i]);
        }
        lemma_whitespace_strips_to_nothing(init);
        init.lemma_filter_push(gap.last(), |c: char| !is_key_whitespace(c));
        assert(init.push(gap.last()) =~= gap);
    }
}

/// Whether a key pasted line by line is complete: with whitespace removed,
/// it is at least as long, in UTF-8 bytes, as the text of a key.
pub fn pasted_key_complete(buffer: &str) -> (res: bool)
    ensures
        res == (encode_utf8(without_key_whitespace(buffer@)).len() >= ENCODED_KEY_LEN),
{
    let clean = strip_key_whitespace(buffer);
    let text = clean.as_str();
    let n = text.unicode_len();
    let mut total: usize = 0;
    let mut i: usize = 0;
    while i < n
        invariant
            n == text@.len(),
            text@ == without_key_whitespace(buffer@),
            i <= n,
            total == encode_utf8(text@.take(i as int)).len(),
            total < ENCODED_KEY_LEN,
        decreases n - i,
    {
        let c = text.get_char(i);
        let code = c as u32;
        let width: usize = if code <= 0x7f {
            1
        } else if code <= 0x7ff {
            2
        } else if code <= 0xffff {
            3
        } else {
            4
        };
        proof {
            vstd::utf8::char_is_scalar(c);
            assert(width == encode_scalar(code).len());
            lemma_encode_utf8_push(text@.take(i as int), c);
            assert(text@.take(i + 1) =~= text@.take(i as int).push(c));
        }
        total = total + width;
        if total >= ENCODED_KEY_LEN {
            proof {
                lemma_encode_utf8_prefix_len(text@, i + 1);
            }
            return true;
        }
        i = i + 1;
    }
    assert(text@.take(n as int) =~= text@);
    false
}

proof fn lemma_encode_utf8_push(s: Seq<char>, c: char)
    ensures
        encode_utf8(s.push(c)) =~= encode_utf8(s) + encode_scalar(c as u32),
    decreases s.len(),
{
    if s.len() == 0 {
        assert(s.push(c).drop_first() =~= s);
    } else {
        assert(s.push(c).drop_first() =~= s.drop_first().push(c));
        lemma_encode_utf8_push(s.drop_first(), c);
    }
}

proof fn lemma_encode_utf8_prefix_len(s: Seq<char>, k: int)
    requires
        0 <= k <= s.len(),
    ensures
        encode_utf8(s.take(k)).len() <= encode_utf8(s).len(),
    decreases s.len() - k,
{
    if k < s.len() {
        lemma_encode_utf8_push(s.take(k), s[k]);
        assert(s.take(k + 1) =~= s.take(k).push(s[k]));
        lemma_encode_utf8_prefix_len(s, k + 1);
    } else {
        assert(s.take(k) =~= s);
    }
}

impl Drop for CryptoKey {
    fn drop(&mut self)
        ensures
            final(self)@.key == Seq::new(32, |i: int| 0u8),
            final(self)@.nonce == Seq::new(24, |i: int| 0u8),
        opens_invariants none
        no_unwind
    {
        wipe(&mut self.key);
        wipe(&mut self.nonce);
    }
}

} // verus!
