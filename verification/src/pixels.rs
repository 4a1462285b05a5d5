//! Raw RGBA pixel buffers and the image codecs of the `image` crate.

use crate::naming::{
    is_portable_path, lemma_spells_is_lowercasing, lower_ascii, lowercases_to, path_extension_of,
    spells,
};
use vstd::prelude::*;

verus! {

/// An image as 8-bit RGBA samples, row by row: four bytes per pixel.
pub struct PixelImage {
    pub width: u32,
    pub height: u32,
    pub pixels: Vec<u8>,
}

/// The image formats that this build of `image` decodes.
#[derive(Clone, Copy, Debug, PartialEq, Eq, Structural)]
pub enum ImageKind {
    Png,
    Jpeg,
    WebP,
    Bmp,
}

/// The format that `image::ImageFormat::from_extension` gives an extension
/// (compared in ASCII lower case), among the formats of this build.
pub open spec fn extension_kind(ext: Seq<char>) -> Option<ImageKind> {
    if spells(ext, seq!['p', 'n', 'g'], seq!['P', 'N', 'G']) || spells(
        ext,
        seq!['a', 'p', 'n', 'g'],
        seq!['A', 'P', 'N', 'G'],
    ) {
        Some(ImageKind::Png)
    } else if spells(ext, seq!['j', 'p', 'g'], seq!['J', 'P', 'G']) || spells(
        ext,
        seq!['j', 'p', 'e', 'g'],
        seq!['J', 'P', 'E', 'G'],
    ) || spells(ext, seq!['j', 'f', 'i', 'f'], seq!['J', 'F', 'I', 'F']) {
        Some(ImageKind::Jpeg)
    } else if spells(ext, seq!['w', 'e', 'b', 'p'], seq!['W', 'E', 'B', 'P']) {
        Some(ImageKind::WebP)
    } else if spells(ext, seq!['b', 'm', 'p'], seq!['B', 'M', 'P']) {
        Some(ImageKind::Bmp)
    } else {
        None
    }
}

/// The table of `from_extension`, for the formats of this build: an
/// extension names PNG when, lower-cased, it is `png` or `apng`; JPEG when it
/// is `jpg`, `jpeg` or `jfif`; WebP when it is `webp`; BMP when it is `bmp`;
/// and none of them otherwise, whatever its length.
pub proof fn lemma_extension_table(ext: Seq<char>)
    ensures
        extension_kind(ext) == Some(ImageKind::Png) <==> (lowercases_to(ext, seq!['p', 'n', 'g'])
            || lowercases_to(ext, seq!['a', 'p', 'n', 'g'])),
        extension_kind(ext) == Some(ImageKind::Jpeg) <==> (lowercases_to(ext, seq!['j', 'p', 'g'])
            || lowercases_to(ext, seq!['j', 'p', 'e', 'g']) || lowercases_to(ext, seq!['j', 'f', 'i', 'f'])),
        extension_kind(ext) == Some(ImageKind::WebP) <==> lowercases_to(ext, seq!['w', 'e', 'b', 'p']),
        extension_kind(ext) == Some(ImageKind::Bmp) <==> lowercases_to(ext, seq!['b', 'm', 'p']),
        extension_kind(ext) is None <==> !{
            ||| lowercases_to(ext, seq!['p', 'n', 'g'])
            ||| lowercases_to(ext, seq!['a', 'p', 'n', 'g'])
            ||| lowercases_to(ext, seq!['j', 'p', 'g'])
            ||| lowercases_to(ext, seq!['j', 'p', 'e', 'g'])
            ||| lowercases_to(ext, seq!['j', 'f', 'i', 'f'])
            ||| lowercases_to(ext, seq!['w', 'e', 'b', 'p'])
            ||| lowercases_to(ext, seq!['b', 'm', 'p'])
        },
{
    lemma_spells_is_lowercasing(ext, seq!['p', 'n', 'g'], seq!['P', 'N', 'G']);
    lemma_spells_is_lowercasing(ext, seq!['a', 'p', 'n', 'g'], seq!['A', 'P', 'N', 'G']);
    lemma_spells_is_lowercasing(ext, seq!['j', 'p', 'g'], seq!['J', 'P', 'G']);
    lemma_spells_is_lowercasing(ext, seq!['j', 'p', 'e', 'g'], seq!['J', 'P', 'E', 'G']);
    lemma_spells_is_lowercasing(ext, seq!['j', 'f', 'i', 'f'], seq!['J', 'F', 'I', 'F']);
    lemma_spells_is_lowercasing(ext, seq!['w', 'e', 'b', 'p'], seq!['W', 'E', 'B', 'P']);
    lemma_spells_is_lowercasing(ext, seq!['b', 'm', 'p'], seq!['B', 'M', 'P']);
    if ext.len() > 0 {
        // The words of different formats differ in their first letter.
        let first = lower_ascii(ext[0]);
    }
}

/// Width, height and RGBA samples that `image::load_from_memory_with_format`
/// decodes from `bytes` as `kind`, converted with `to_rgba8()`, or `None`
/// where `image` cannot decode them.
pub uninterp spec fn decoded_image(kind: ImageKind, bytes: Seq<u8>) -> Option<(u32, u32, Seq<u8>)>;

/// The PNG file that `image` writes for an RGBA buffer of the given size, or
/// `None` where the encoder refuses it.
pub uninterp spec fn encoded_png(width: u32, height: u32, pixels: Seq<u8>) -> Option<Seq<u8>>;

/// The eight bytes that begin every PNG file.
pub open spec fn png_signature() -> Seq<u8> {
    seq![137u8, 80u8, 78u8, 71u8, 13u8, 10u8, 26u8, 10u8]
}

/// Image sizes for which `image` writes a PNG and reads it back: at least one
/// pixel on each side and an RGBA buffer within the 512 MiB that `image`
/// reserves for a decoded image by default (the `png` decoder's own budget
/// is charged only for a line buffer).
pub open spec fn png_round_trips(width: u32, height: u32) -> bool {
    1 <= width && 1 <= height && 4 * width * height <= 0x2000_0000
}

/// The IEND chunk that ends every PNG file: zero length, type `IEND`, CRC.
pub open spec fn iend_chunk() -> Seq<u8> {
    seq![0u8, 0u8, 0u8, 0u8, 73u8, 69u8, 78u8, 68u8, 0xaeu8, 0x42u8, 0x60u8, 0x82u8]
}

/// `bytes` begins with `prefix`.
pub open spec fn starts_with(bytes: Seq<u8>, prefix: Seq<u8>) -> bool {
    bytes.len() >= prefix.len() && bytes.take(prefix.len() as int) == prefix
}

/// The format that `image::guess_format` reads from the first bytes, among
/// the formats of this build: the PNG signature, the JPEG start `FF D8 FF`,
/// `RIFF` with `WEBP` at offset 8, or `BM`. (The other signatures that
/// `guess_format` knows all begin with other bytes.)
pub open spec fn guessed_kind(bytes: Seq<u8>) -> Option<ImageKind> {
    if starts_with(bytes, png_signature()) {
        Some(ImageKind::Png)
    } else if starts_with(bytes, seq![0xffu8, 0xd8u8, 0xffu8]) {
        Some(ImageKind::Jpeg)
    } else if bytes.len() >= 12 && bytes.take(4) == seq![82u8, 73u8, 70u8, 70u8]
        && bytes.subrange(8, 12) == seq![87u8, 69u8, 66u8, 80u8] {
        Some(ImageKind::WebP)
    } else if starts_with(bytes, seq![66u8, 77u8]) {
        Some(ImageKind::Bmp)
    } else {
        None
    }
}

/// Calls `image::ImageFormat::from_path(path)`, as `image::open` decides a
/// file's format, and keeps the formats of this build. Errors are `image`'s
/// own: `from_path`'s for a path without a known extension, and, for a known
/// format that this build does not decode, the `Unsupported(Exact(format))`
/// that `image::open` reports for it.
///
/// Trusted: for a portable path the format is `extension_kind` of its
/// extension, from `from_extension`'s table; an error exactly where there is
/// none. For other paths the extension follows the platform's path syntax and
/// is not stated.
#[verifier::external_body]
pub(crate) fn format_for_path(path: &str) -> (res: Result<ImageKind, image::ImageError>)
    ensures
        is_portable_path(path@) ==> match res {
            Ok(kind) => path_extension_of(path@) matches Some(ext) && extension_kind(ext) == Some(kind),
            Err(_) => match path_extension_of(path@) {
                Some(ext) => extension_kind(ext) is None,
                None => true,
            },
        },
{
    match image::ImageFormat::from_path(path)? {
        image::ImageFormat::Png => Ok(ImageKind::Png),
        image::ImageFormat::Jpeg => Ok(ImageKind::Jpeg),
        image::ImageFormat::WebP => Ok(ImageKind::WebP),
        image::ImageFormat::Bmp => Ok(ImageKind::Bmp),
        f => Err(image::ImageError::Unsupported(image::error::ImageFormatHint::Exact(f).into())),
    }
}

/// Calls `image::guess_format(bytes)`, which reads the magic bytes at the
/// start (it consults no detection hooks), and keeps the formats of this
/// build; any other format becomes an `Unsupported` error.
///
/// Trusted: the result is `guessed_kind(bytes)`, from `guess_format`'s table.
#[verifier::external_body]
pub(crate) fn guess_kind(bytes: &[u8]) -> (res: Result<ImageKind, image::ImageError>)
    ensures
        match res {
            Ok(kind) => guessed_kind(bytes@) == Some(kind),
            Err(_) => guessed_kind(bytes@) is None,
        },
{
    match image::guess_format(bytes)? {
        image::ImageFormat::Png => Ok(ImageKind::Png),
        image::ImageFormat::Jpeg => Ok(ImageKind::Jpeg),
        image::ImageFormat::WebP => Ok(ImageKind::WebP),
        image::ImageFormat::Bmp => Ok(ImageKind::Bmp),
        f => Err(image::ImageError::Unsupported(image::error::ImageFormatHint::Exact(f).into())),
    }
}

/// Calls `image::load_from_memory_with_format(bytes, kind)` and converts the
/// result with `to_rgba8()`. With the format given, `image` consults no format
/// detection hooks.
///
/// Trusted: the result is `decoded_image(kind, bytes)`, an error exactly where
/// that is `None`; `to_rgba8` holds exactly four bytes per pixel; and since
/// `image` refuses to decode more than 512 MiB of samples (of at least one
/// byte per pixel), the RGBA buffer holds at most 2 GiB. Which `ImageError`
/// comes back is not stated.
#[verifier::external_body]
pub(crate) fn decode_image(kind: ImageKind, bytes: &[u8]) -> (res: Result<PixelImage, image::ImageError>)
    ensures
        match res {
            Ok(img) => decoded_image(kind, bytes@) == Some((img.width, img.height, img.pixels@))
                && img.pixels@.len() == 4 * img.width * img.height
                && img.pixels@.len() <= 0x8000_0000,
            Err(_) => decoded_image(kind, bytes@) is None,
        },
{
    let format = match kind {
        ImageKind::Png => image::ImageFormat::Png,
        ImageKind::Jpeg => image::ImageFormat::Jpeg,
        ImageKind::WebP => image::ImageFormat::WebP,
        ImageKind::Bmp => image::ImageFormat::Bmp,
    };
    let rgba = image::load_from_memory_with_format(bytes, format)?.to_rgba8();
    let (width, height) = rgba.dimensions();
    Ok(PixelImage { width, height, pixels: rgba.into_raw() })
}

/// Calls `image::RgbaImage::from_raw` and writes the image as PNG into memory
/// with `write_to(.., ImageFormat::Png)`.
///
/// Trusted: the result is `encoded_png` of the arguments, an error exactly
/// where that is `None`; a written file begins with the PNG signature, which
/// the `png` encoder writes first, and ends with the IEND chunk, which its
/// writer adds when done. The encoder refuses only empty images
/// (writing to memory does not fail). For sizes in `png_round_trips`,
/// PNG being lossless, decoding the file as PNG gives the buffer back. `from_raw` accepts a buffer of exactly four bytes per pixel, which
/// `requires` asks for.
#[verifier::external_body]
pub(crate) fn encode_png(width: u32, height: u32, pixels: Vec<u8>) -> (res: Result<Vec<u8>, image::ImageError>)
    requires
        pixels@.len() == 4 * width * height,
    ensures
        match res {
            Ok(png) => encoded_png(width, height, pixels@) == Some(png@)
                && png@.len() >= 20 && png@.take(8) == png_signature()
                && png@.skip(png@.len() - 12) == iend_chunk()
                && (png_round_trips(width, height) ==> decoded_image(ImageKind::Png, png@) == Some(
                    (width, height, pixels@),
                )),
            Err(_) => encoded_png(width, height, pixels@) is None,
        },
        1 <= width && 1 <= height ==> res is Ok,
{
    let img = image::RgbaImage::from_raw(width, height, pixels).expect("buffer of four bytes per pixel");
    let mut png: Vec<u8> = Vec::new();
    img.write_to(&mut std::io::Cursor::new(&mut png), image::ImageFormat::Png)?;
    Ok(png)
}

} // verus!
