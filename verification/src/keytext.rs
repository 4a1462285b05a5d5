//! The text form of a key bundle: URL-safe Base64 without padding, as the
//! `base64` crate writes and reads it, and the whitespace that a copied key
//! may pick up on its way back in.

use base64::Engine;
use vstd::prelude::*;
use vstd::string::*;

verus! {

/// `base64::DecodeError`, returned when a text is not valid Base64.
#[verifier::external_type_specification]
#[verifier::external_body]
pub struct ExDecodeError(base64::DecodeError);

/// The text that `base64`'s `URL_SAFE_NO_PAD` engine encodes `bytes` to.
pub uninterp spec fn url_safe_encoding(bytes: Seq<u8>) -> Seq<char>;

/// The bytes that `base64`'s `URL_SAFE_NO_PAD` engine decodes `text` to, or
/// `None` where the engine rejects the text.
pub uninterp spec fn url_safe_decoding(text: Seq<char>) -> Option<Seq<u8>>;

/// Length of the unpadded Base64 text of `n` bytes: four symbols for each
/// complete group of three bytes, and one symbol more than the bytes left over.
pub open spec fn unpadded_encoded_len(n: nat) -> nat {
    4 * (n / 3) + if n % 3 == 0 {
        0
    } else {
        n % 3 + 1
    }
}

/// A symbol of the URL-safe Base64 alphabet `A-Z a-z 0-9 - _`.
pub open spec fn is_url_safe_symbol(c: char) -> bool {
    ||| ('A' <= c && c <= 'Z')
    ||| ('a' <= c && c <= 'z')
    ||| ('0' <= c && c <= '9')
    ||| c == '-'
    ||| c == '_'
}

/// The characters that are dropped from a pasted key: line feed, carriage
/// return, space and tab.
pub open spec fn is_key_whitespace(c: char) -> bool {
    c == '\n' || c == '\r' || c == ' ' || c == '\t'
}

/// `text` with every key whitespace character removed.
pub open spec fn without_key_whitespace(text: Seq<char>) -> Seq<char> {
    text.filter(|c: char| !is_key_whitespace(c))
}

/// Calls `URL_SAFE_NO_PAD.encode` of the `base64` crate.
///
/// Trusted: the text is the engine's encoding of `bytes`; it has the unpadded
/// length of `base64::encoded_len(len, false)`; it is made of the URL-safe
/// alphabet only; and the same engine decodes it back to `bytes`. The engine
/// panics only when that length overflows `usize`, which `requires` excludes.
#[verifier::external_body]
pub(crate) fn encode_url_safe(bytes: &[u8]) -> (text: String)
    requires
        unpadded_encoded_len(bytes@.len()) <= usize::MAX,
    ensures
        text@ == url_safe_encoding(bytes@),
        text@.len() == unpadded_encoded_len(bytes@.len()),
        forall|i: int| 0 <= i < text@.len() ==> is_url_safe_symbol(#[trigger] text@[i]),
        url_safe_decoding(text@) == Some(bytes@),
{
    base64::engine::general_purpose::URL_SAFE_NO_PAD.encode(bytes)
}

/// Calls `URL_SAFE_NO_PAD.decode` of the `base64` crate.
///
/// Trusted: the result is the engine's decoding of `text`, `Err` exactly where
/// the engine rejects it. Decoding is canonical (padding and non-zero trailing
/// bits are refused), so the bytes encode back to `text`. Which `DecodeError`
/// comes back is not stated.
#[verifier::external_body]
pub(crate) fn decode_url_safe(text: &str) -> (res: Result<Vec<u8>, base64::DecodeError>)
    ensures
        match res {
            Ok(bytes) => url_safe_decoding(text@) == Some(bytes@) && url_safe_encoding(bytes@)
                == text@,
            Err(_) => url_safe_decoding(text@) is None,
        },
{
    base64::engine::general_purpose::URL_SAFE_NO_PAD.decode(text)
}

/// Calls `String::push` of std: appends one character.
#[verifier::external_body]
pub(crate) fn push_char(s: &mut String, c: char)
    ensures
        final(s)@ == old(s)@.push(c),
{
    s.push(c)
}

fn is_whitespace_char(c: char) -> (res: bool)
    ensures
        res == is_key_whitespace(c),
{
    c == '\n' || c == '\r' || c == ' ' || c == '\t'
}

/// Removes line feeds, carriage returns, spaces and tabs from a pasted key,
/// so that a key copied across several lines reads as one.
pub fn strip_key_whitespace(text: &str) -> (res: String)
    ensures
        res@ == without_key_whitespace(text@),
{
    let n = text.unicode_len();
    let mut out = String::new();
    let mut i: usize = 0;
    while i < n
        invariant
            n == text@.len(),
            i <= n,
            out@ == without_key_whitespace(text@.take(i as int)),
        decreases n - i,
    {
        let c = text.get_char(i);
        if !is_whitespace_char(c) {
            push_char(&mut out, c);
        }
        proof {
            assert(text@.take(i + 1) =~= text@.take(i as int).push(c));
            text@.take(i as int).lemma_filter_push(c, |c: char| !is_key_whitespace(c));
        }
        i = i + 1;
    }
    proof {
        assert(text@.take(n as int) =~= text@);
    }
    out
}

/// A text without key whitespace is left as it is.
pub proof fn lemma_strip_keeps_clean_text(text: Seq<char>)
    requires
        forall|i: int| 0 <= i < text.len() ==> !is_key_whitespace(#[trigger] text[i]),
    ensures
        without_key_whitespace(text) == text,
    decreases text.len(),
{
    if text.len() > 0 {
        let init = text.drop_last();
        assert forall|i: int| 0 <= i < init.len() implies !is_key_whitespace(#[trigger] init[i]) by {
            assert(init[i] == text[i]);
        }
        lemma_strip_keeps_clean_text(init);
        init.lemma_filter_push(text.last(), |c: char| !is_key_whitespace(c));
        assert(init.push(text.last()) =~= text);
    }
}

} // verus!
