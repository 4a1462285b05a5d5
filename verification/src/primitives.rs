//! The cryptographic primitives that the key logic calls: XChaCha20-Poly1305
//! from `chacha20poly1305`, the operating system's random source from `rand`,
//! and memory wiping from `zeroize`.

use chacha20poly1305::aead::Aead;
use chacha20poly1305::KeyInit;
use rand::RngCore;
use vstd::prelude::*;
use zeroize::Zeroize;

verus! {

/// `chacha20poly1305::Error` (the `aead` crate's opaque error), returned when
/// a sealed message does not authenticate.
#[verifier::external_type_specification]
#[verifier::external_body]
pub struct ExAeadError(chacha20poly1305::Error);

/// The bytes that `XChaCha20Poly1305::encrypt` returns for `plaintext` under
/// `key` and `nonce`, without associated data: the ciphertext followed by the
/// Poly1305 tag.
pub uninterp spec fn xchacha_seal(key: Seq<u8>, nonce: Seq<u8>, plaintext: Seq<u8>) -> Seq<u8>;

/// The plaintext that `XChaCha20Poly1305::decrypt` recovers from `sealed`
/// under `key` and `nonce`, without associated data, or `None` where the tag
/// does not authenticate the message.
pub uninterp spec fn xchacha_open(key: Seq<u8>, nonce: Seq<u8>, sealed: Seq<u8>) -> Option<Seq<u8>>;

/// The longest message the cipher handles: after the Poly1305 key takes
/// block 0, the 32-bit ChaCha20 block counter leaves `u32::MAX - 1` blocks of
/// 64 bytes. Longer messages make the cipher refuse or panic.
pub open spec fn within_cipher_limit(len: nat) -> bool {
    len <= 64 * 0xffff_fffe
}

/// Byte `i` of the XChaCha20 keystream for `key` and `nonce` from block 1 on,
/// the stream that `XChaCha20Poly1305` XORs with the message.
pub uninterp spec fn xchacha_keystream_byte(key: Seq<u8>, nonce: Seq<u8>, i: nat) -> u8;

/// Calls `XChaCha20Poly1305::new(key).encrypt(nonce, plaintext)`.
///
/// Trusted, from the source of `chacha20poly1305`, `chacha20` and `aead`:
/// within the block limit the call succeeds; the result is the plaintext
/// XORed with the keystream (from block 1) followed by a 16-byte tag; and
/// `decrypt` with the same key and nonce returns the plaintext for it. Beyond
/// the limit the cipher refuses or its keystream panics, which `requires`
/// excludes.
#[verifier::external_body]
pub(crate) fn xchacha_encrypt(key: &[u8; 32], nonce: &[u8; 24], plaintext: &[u8]) -> (sealed: Vec<u8>)
    requires
        within_cipher_limit(plaintext@.len()),
    ensures
        sealed@ == xchacha_seal(key@, nonce@, plaintext@),
        sealed@.len() == plaintext@.len() + 16,
        forall|i: int|
            0 <= i < plaintext@.len() ==> #[trigger] sealed@[i] == plaintext@[i] ^ xchacha_keystream_byte(
                key@,
                nonce@,
                i as nat,
            ),
        xchacha_open(key@, nonce@, sealed@) == Some(plaintext@),
{
    let cipher = chacha20poly1305::XChaCha20Poly1305::new(key.into());
    cipher.encrypt(chacha20poly1305::XNonce::from_slice(nonce), plaintext).unwrap()
}

/// Calls `XChaCha20Poly1305::new(key).decrypt(nonce, sealed)`.
///
/// Trusted: the result is `xchacha_open` of the arguments; `Err` exactly where
/// that is `None`. A recovered plaintext is 16 bytes (the tag) shorter than
/// `sealed`, as `aead` truncates the buffer at the tag, and encrypting it
/// again with the same key and nonce gives `sealed` back: decryption applies
/// the same keystream and accepts only the tag that encryption computes. An
/// authentic message beyond the block limit would make the keystream panic,
/// which `requires` excludes.
#[verifier::external_body]
pub(crate) fn xchacha_decrypt(key: &[u8; 32], nonce: &[u8; 24], sealed: &[u8]) -> (res: Result<Vec<u8>, chacha20poly1305::Error>)
    requires
        within_cipher_limit((sealed@.len() - 16) as nat),
    ensures
        match res {
            Ok(plaintext) => xchacha_open(key@, nonce@, sealed@) == Some(plaintext@)
                && plaintext@.len() + 16 == sealed@.len()
                && xchacha_seal(key@, nonce@, plaintext@) == sealed@,
            Err(_) => xchacha_open(key@, nonce@, sealed@) is None,
        },
{
    let cipher = chacha20poly1305::XChaCha20Poly1305::new(key.into());
    cipher.decrypt(chacha20poly1305::XNonce::from_slice(nonce), sealed)
}

/// Calls `OsRng.try_fill_bytes` of `rand`: fills `buf` from the operating
/// system's random source, or reports (as `std::io::Error`, through
/// `rand_core`'s conversion) that the source failed.
///
/// Nothing is stated of the bytes, which are random, nor of when the source
/// fails, which depends on the machine.
#[verifier::external_body]
pub(crate) fn fill_random<const N: usize>(buf: &mut [u8; N]) -> (res: Result<(), std::io::Error>) {
    rand::rngs::OsRng.try_fill_bytes(buf).map_err(std::io::Error::from)
}

/// Calls `Zeroize::zeroize` of `zeroize` on a byte array: every byte becomes 0
/// through writes that the compiler may not remove.
#[verifier::external_body]
pub(crate) fn wipe<const N: usize>(buf: &mut [u8; N])
    ensures
        final(buf)@ == Seq::new(N as nat, |i: int| 0u8),
    opens_invariants none
    no_unwind
{
    buf.zeroize()
}

} // verus!
