//! The error type of the library.

use vstd::prelude::*;

verus! {

/// `std::io::Error`, carried through unchanged by the front end.
#[verifier::external_type_specification]
#[verifier::external_body]
pub struct ExIoError(std::io::Error);

/// `image::ImageError`, produced when an image cannot be decoded or encoded.
#[verifier::external_type_specification]
#[verifier::external_body]
pub struct ExImageError(image::ImageError);

/// Everything that can go wrong while locking or unlocking an image.
#[derive(Debug)]
pub enum CryptixError {
    /// Reading or writing a file failed.
    Io(std::io::Error),
    /// The image could not be decoded or encoded.
    Image(image::ImageError),
    /// The secret key text is not a valid key; the text says why.
    InvalidKey(String),
    /// The output file name does not end in `.png`.
    LossyFormat,
    /// The authentication tag does not match: the data was altered.
    TamperedData,
}

} // verus!
