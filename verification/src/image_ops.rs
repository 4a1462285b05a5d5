//! Locking and unlocking images: the pixel matrix is sealed with the key and
//! written as a lossless PNG, and the 16-byte Poly1305 tag is appended after
//! the PNG's last chunk, where image viewers do not look but unlocking finds it.

use crate::crypto::{CryptoKey, TAG_LEN};
use crate::error::CryptixError;
use crate::naming::{
    is_portable_path, lemma_lower_ascii_char, lower_ascii, lowercases_to, path_extension,
    path_extension_of, path_file_name,
};
use crate::pixels::{
    decode_image, decoded_image, encode_png, encoded_png, extension_kind, guess_kind, guessed_kind,
    format_for_path, png_round_trips, png_signature, iend_chunk, ImageKind, PixelImage,
};
use crate::primitives::within_cipher_limit;
use vstd::prelude::*;
use vstd::string::*;

verus! {

/// `c` is the letter `lower` in either case (`lower` a lower-case ASCII letter).
pub open spec fn same_letter(c: char, lower: char, upper: char) -> bool {
    c == lower || c == upper
}

/// The name ends in `.png`, in any mix of letter case.
pub open spec fn has_png_extension(name: Seq<char>) -> bool {
    let n = name.len() as int;
    &&& n >= 4
    &&& name[n - 4] == '.'
    &&& same_letter(name[n - 3], 'p', 'P')
    &&& same_letter(name[n - 2], 'n', 'N')
    &&& same_letter(name[n - 1], 'g', 'G')
}

/// An output name is taken as lossless exactly when, lower-cased, it ends
/// with the four characters `.png`; any other ending (`.gif`, `.jpg`, none
/// at all) is not.
pub proof fn lemma_png_output_names(name: Seq<char>)
    ensures
        has_png_extension(name) <==> (name.len() >= 4 && lowercases_to(
            name.skip(name.len() - 4),
            seq!['.', 'p', 'n', 'g'],
        )),
{
    let n = name.len() as int;
    if n >= 4 {
        let t = name.skip(n - 4);
        let w = seq!['.', 'p', 'n', 'g'];
        assert(t[0] == name[n - 4] && t[1] == name[n - 3] && t[2] == name[n - 2] && t[3] == name[n - 1]);
        lemma_lower_ascii_char(t[0], '.');
        lemma_lower_ascii_char(t[1], 'p');
        lemma_lower_ascii_char(t[2], 'n');
        lemma_lower_ascii_char(t[3], 'g');
        if has_png_extension(name) {
            assert forall|i: int| 0 <= i < t.len() implies #[trigger] lower_ascii(t[i]) == w[i] by {
                assert(0 <= i < 4);
            }
        }
        if lowercases_to(t, w) {
            assert(lower_ascii(t[0]) == w[0]);
            assert(lower_ascii(t[1]) == w[1]);
            assert(lower_ascii(t[2]) == w[2]);
            assert(lower_ascii(t[3]) == w[3]);
        }
    }
}

/// Refuses an output name that does not end in `.png` (in any letter case):
/// only a lossless format keeps every encrypted byte.
pub fn check_output_format(output: &str) -> (res: Result<(), CryptixError>)
    ensures
        res is Ok <==> (output@.len() >= 4 && lowercases_to(
            output@.skip(output@.len() - 4),
            seq!['.', 'p', 'n', 'g'],
        )),
        has_png_extension(output@) ==> res is Ok,
        !has_png_extension(output@) ==> res matches Err(CryptixError::LossyFormat),
{
    proof {
        lemma_png_output_names(output@);
    }
    let n = output.unicode_len();
    if n < 4 {
        return Err(CryptixError::LossyFormat);
    }
    let (c1, c2, c3, c4) = (
        output.get_char(n - 4),
        output.get_char(n - 3),
        output.get_char(n - 2),
        output.get_char(n - 1),
    );
    if c1 == '.' && (c2 == 'p' || c2 == 'P') && (c3 == 'n' || c3 == 'N') && (c4 == 'g' || c4 == 'G') {
        Ok(())
    } else {
        Err(CryptixError::LossyFormat)
    }
}

/// What unlocking a file gives.
#[verifier::ext_equal]
pub ghost enum Unlocked {
    /// The restored image: width, height and RGBA samples.
    Image(u32, u32, Seq<u8>),
    /// The file was altered: it is too short to hold a tag, its PNG part no
    /// longer decodes, or the tag does not authenticate the pixels.
    Tampered,
}

/// The PNG part of a locked file: all but the last 16 bytes.
pub open spec fn png_part(file: Seq<u8>) -> Seq<u8> {
    file.take(file.len() - 16)
}

/// The tag part of a locked file: the last 16 bytes.
pub open spec fn tag_part(file: Seq<u8>) -> Seq<u8> {
    file.skip(file.len() - 16)
}

/// Unlocking `file` with `key`: a file of at most 16 bytes holds no image; else
/// the image part is decoded, in the format its first bytes name, and its
/// pixels are opened with the tag part. Any failure means the file was altered.
pub open spec fn unlock_file(key: &CryptoKey, file: Seq<u8>) -> Unlocked {
    if file.len() <= 16 {
        Unlocked::Tampered
    } else {
        match guessed_kind(png_part(file)) {
            None => Unlocked::Tampered,
            Some(kind) => match decoded_image(kind, png_part(file)) {
                None => Unlocked::Tampered,
                Some((w, h, sealed_pixels)) => match key.opened(sealed_pixels, tag_part(file)) {
                    None => Unlocked::Tampered,
                    Some(pixels) => Unlocked::Image(w, h, pixels),
                },
            },
        }
    }
}

/// Splits the bytes of a locked file into its PNG part and its tag. A file of
/// 16 bytes or fewer cannot hold both and is reported as `TamperedData`.
pub fn split_locked_file(file: &[u8]) -> (res: Result<(Vec<u8>, [u8; TAG_LEN]), CryptixError>)
    ensures
        file@.len() <= TAG_LEN ==> res matches Err(CryptixError::TamperedData),
        file@.len() > TAG_LEN ==> (res matches Ok((png, tag)) && png@ == png_part(file@) && tag@ == tag_part(file@)),
{
    let n = file.len();
    if n <= TAG_LEN {
        return Err(CryptixError::TamperedData);
    }
    let split_point = n - TAG_LEN;
    let mut png: Vec<u8> = Vec::new();
    let mut i: usize = 0;
    while i < split_point
        invariant
            split_point == file@.len() - TAG_LEN,
            i <= split_point,
            png@ == file@.take(i as int),
        decreases split_point - i,
    {
        png.push(file[i]);
        assert(file@.take(i + 1) =~= file@.take(i as int).push(file@[i as int]));
        i = i + 1;
    }
    let mut tag = [0u8; 16];
    let mut j: usize = 0;
    while j < TAG_LEN
        invariant
            n == file@.len(),
            split_point == n - TAG_LEN,
            j <= TAG_LEN,
            forall|k: int| 0 <= k < j ==> tag[k] == file@[split_point + k],
        decreases TAG_LEN - j,
    {
        tag[j] = file[split_point + j];
        j = j + 1;
    }
    assert(tag@ =~= tag_part(file@));
    Ok((png, tag))
}

/// Decrypts an image from the bytes of its locked file, with tamper
/// verification, and returns the restored pixels. The tag is split off the
/// end, the image before it is decoded (in the format its first bytes name,
/// normally PNG), and the pixels are opened with the key.
/// If the file was altered (too short, undecodable, or with a tag that does
/// not authenticate the pixels) the result is `TamperedData`.
pub fn decrypt_image(file: &[u8], key: &CryptoKey) -> (res: Result<PixelImage, CryptixError>)
    ensures
        match unlock_file(key, file@) {
            Unlocked::Image(w, h, pixels) => res matches Ok(img) && img.width == w && img.height == h
                && img.pixels@ == pixels && pixels.len() == 4 * w * h,
            Unlocked::Tampered => res matches Err(CryptixError::TamperedData),
        },
{
    let (png, tag) = split_locked_file(file)?;
    let kind = match guess_kind(png.as_slice()) {
        Ok(k) => k,
        Err(_) => {
            return Err(CryptixError::TamperedData);
        },
    };
    let sealed = match decode_image(kind, png.as_slice()) {
        Ok(img) => img,
        Err(_) => {
            return Err(CryptixError::TamperedData);
        },
    };
    let pixels = key.decrypt(sealed.pixels.as_slice(), &tag)?;
    Ok(PixelImage { width: sealed.width, height: sealed.height, pixels })
}

/// Decrypts a locked file and returns the restored image written as PNG:
/// `TamperedData` as `decrypt_image` reports it, an image error where the
/// restored image cannot be written.
pub fn decrypt_image_file(file: &[u8], key: &CryptoKey) -> (res: Result<Vec<u8>, CryptixError>)
    ensures
        match unlock_file(key, file@) {
            Unlocked::Image(w, h, pixels) => match encoded_png(w, h, pixels) {
                Some(png) => res matches Ok(out) && out@ == png,
                None => res matches Err(CryptixError::Image(_)),
            },
            Unlocked::Tampered => res matches Err(CryptixError::TamperedData),
        },
        unlock_file(key, file@) matches Unlocked::Image(w, h, _) && 1 <= w && 1 <= h ==> res is Ok,
        res matches Ok(out) ==> match unlock_file(key, file@) {
            Unlocked::Image(w, h, pixels) => png_round_trips(w, h) ==> decoded_image(ImageKind::Png, out@)
                == Some((w, h, pixels)),
            Unlocked::Tampered => false,
        },
{
    let restored = decrypt_image(file, key)?;
    match encode_png(restored.width, restored.height, restored.pixels) {
        Ok(png) => Ok(png),
        Err(e) => Err(CryptixError::Image(e)),
    }
}

/// The sealed pixels under `key`: ciphertext of the same length.
pub open spec fn sealed_pixels(key: &CryptoKey, pixels: Seq<u8>) -> Seq<u8> {
    key.sealed(pixels).take(pixels.len() as int)
}

/// The tag of the sealed pixels under `key`.
pub open spec fn pixels_tag(key: &CryptoKey, pixels: Seq<u8>) -> Seq<u8> {
    key.sealed(pixels).skip(pixels.len() as int)
}

/// `res` is the outcome of locking the image of the given size and pixels with
/// `key`: the PNG of the sealed pixels followed by the tag (an image error
/// where the PNG cannot be written, that is for an empty image); unlocking a
/// locked file restores the image whenever `image` reads the PNG back, which
/// it does for sizes in `png_round_trips`.
pub open spec fn locks_image(
    key: &CryptoKey,
    width: u32,
    height: u32,
    pixels: Seq<u8>,
    res: Result<Vec<u8>, CryptixError>,
) -> bool {
    &&& match encoded_png(width, height, sealed_pixels(key, pixels)) {
        Some(png) => res matches Ok(file) && file@ == png + pixels_tag(key, pixels)
            && png.skip(png.len() - 12) == iend_chunk(),
        None => res matches Err(CryptixError::Image(_)),
    }
    &&& res matches Ok(file) ==> (decoded_image(ImageKind::Png, png_part(file@)) == Some(
        (width, height, sealed_pixels(key, pixels)),
    ) ==> unlock_file(key, file@) == Unlocked::Image(width, height, pixels))
    &&& png_round_trips(width, height) ==> (res matches Ok(file) && decoded_image(
        ImageKind::Png,
        png_part(file@),
    ) == Some((width, height, sealed_pixels(key, pixels))) && unlock_file(key, file@)
        == Unlocked::Image(width, height, pixels))
    &&& 1 <= width && 1 <= height ==> res is Ok
}

/// Encrypts an image given as RGBA pixels and returns the bytes of its
/// locked file. The pixels are sealed with the key, the ciphertext is
/// written as a PNG of the same size, and the 16-byte tag is appended after it.
/// Unlocking the file with the same key restores the image.
pub fn encrypt_image(image: &PixelImage, key: &CryptoKey) -> (res: Result<Vec<u8>, CryptixError>)
    requires
        image.pixels@.len() == 4 * image.width * image.height,
        within_cipher_limit(image.pixels@.len()),
    ensures
        locks_image(key, image.width, image.height, image.pixels@, res),
{
    let (ciphertext, tag) = key.encrypt(image.pixels.as_slice());
    proof {
        let n = image.pixels@.len() as int;
        assert(ciphertext@ =~= (ciphertext@ + tag@).take(n));
        assert(tag@ =~= (ciphertext@ + tag@).skip(n));
        assert(ciphertext@ == sealed_pixels(key, image.pixels@));
        assert(tag@ == pixels_tag(key, image.pixels@));
    }
    let mut file = match encode_png(image.width, image.height, ciphertext) {
        Ok(png) => png,
        Err(e) => {
            return Err(CryptixError::Image(e));
        },
    };
    let ghost png = file@;
    file.extend_from_slice(tag.as_slice());
    assert(file@ =~= png + tag@);
    proof {
        assert(png_part(file@) =~= png);
        assert(tag_part(file@) =~= tag@);
        assert(png.take(8) == png_signature());
        assert(guessed_kind(png_part(file@)) == Some(ImageKind::Png));
    }
    Ok(file)
}

/// The extension that `image::open` decides the format by: the path's
/// extension, or none.
pub open spec fn format_extension(path: Seq<char>) -> Seq<char> {
    match path_extension_of(path) {
        Some(ext) => ext,
        None => Seq::empty(),
    }
}

/// `image::open` decides a file's format by the path's own extension, whole,
/// whatever its length: where the path has an extension, that extension is
/// the one looked up; where it has none, nothing is.
pub proof fn lemma_format_extension_is_path_extension(path: Seq<char>)
    ensures
        path_extension_of(path) matches Some(ext) ==> format_extension(path) == ext,
        path_extension_of(path) is None ==> format_extension(path).len() == 0,
{
}

/// Encrypts an image file: the file's bytes are decoded in the format that
/// the extension of `input_path` names (png, apng, jpg, jpeg, jfif, webp or
/// bmp, in any letter case) and converted to RGBA, then locked as
/// `encrypt_image` does. A path without an extension, an extension of
/// another format, or bytes that do not decode, give an image error. For
/// paths that are not portable (with `\\`, `:` or a leading `//`) the
/// extension follows the platform's path syntax and is not stated.
pub fn encrypt_image_file(input_path: &str, input: &[u8], key: &CryptoKey) -> (res: Result<Vec<u8>, CryptixError>)
    ensures
        is_portable_path(input_path@) ==> match path_extension_of(input_path@) {
            None => res matches Err(CryptixError::Image(_)),
            Some(ext) => match extension_kind(ext) {
                None => res matches Err(CryptixError::Image(_)),
                Some(kind) => match decoded_image(kind, input@) {
                    None => res matches Err(CryptixError::Image(_)),
                    Some((w, h, pixels)) => locks_image(key, w, h, pixels, res),
                },
            },
        },
{
    // `image::open` reads an empty extension as none.
    let mut lookup = input_path;
    if let Some(e) = path_extension(input_path) {
        if e.as_str().unicode_len() == 0 {
            lookup = "";
        }
    }
    proof {
        reveal_strlit("");
        assert(is_portable_path(""@));
        assert(path_file_name(""@) is None);
    }
    let kind = match format_for_path(lookup) {
        Ok(k) => k,
        Err(e) => {
            return Err(CryptixError::Image(e));
        },
    };
    let image = match decode_image(kind, input) {
        Ok(img) => img,
        Err(e) => {
            return Err(CryptixError::Image(e));
        },
    };
    encrypt_image(&image, key)
}

} // verus!
