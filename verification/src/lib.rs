//! Cryptix: visual encryption of raw RGBA pixel data with XChaCha20-Poly1305.
//!
//! The library holds the logic of the suite: key bundles and their URL-safe
//! Base64 text form, sealing and opening pixel buffers, the layout of an
//! encrypted PNG file (image followed by its authentication tag), and the
//! naming and listing rules of the interactive front end.

pub mod crypto;
pub mod error;
pub mod image_ops;
pub mod keytext;
pub mod naming;
pub mod pixels;
pub mod primitives;
pub mod terminal;

pub use crypto::{pasted_key_complete, CryptoKey, ENCODED_KEY_LEN, TAG_LEN};
pub use error::CryptixError;
pub use image_ops::{
    check_output_format, decrypt_image, decrypt_image_file, encrypt_image, encrypt_image_file,
    split_locked_file,
};
pub use naming::{generate_output_name, select_image_files};
pub use pixels::{ImageKind, PixelImage};
