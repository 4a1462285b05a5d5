use image::error::ImageFormatHint;
use cryptix::crypto::CryptoKey;
use cryptix::image_ops::{
    check_output_format, decrypt_image, decrypt_image_file, encrypt_image, encrypt_image_file, split_locked_file,
};
use cryptix::{CryptixError, PixelImage};

fn sample_image() -> PixelImage {
    let width = 3u32;
    let height = 2u32;
    let pixels: Vec<u8> = (0..(width * height * 4)).map(|i| (i * 11) as u8).collect();
    PixelImage { width, height, pixels }
}

#[test]
fn png_outputs_are_accepted_in_any_case() {
    assert!(check_output_format("out.png").is_ok());
    assert!(check_output_format("out.PNG").is_ok());
    assert!(check_output_format("dir/out_locked.PnG").is_ok());
    assert!(check_output_format(".png").is_ok());
}

#[test]
fn lossy_outputs_are_refused() {
    for name in ["out.jpg", "out.jpeg", "out.png.bak", "png", "out_png", "", "out.pn g"] {
        assert!(matches!(check_output_format(name), Err(CryptixError::LossyFormat)), "{}", name);
    }
}

#[test]
fn short_files_hold_no_tag() {
    assert!(matches!(split_locked_file(&[0u8; 16]), Err(CryptixError::TamperedData)));
    assert!(matches!(split_locked_file(&[]), Err(CryptixError::TamperedData)));
    assert!(matches!(decrypt_image(&[1u8; 10], &CryptoKey::generate().unwrap().0), Err(CryptixError::TamperedData)));
}

#[test]
fn locked_file_splits_at_the_last_sixteen_bytes() {
    let file: Vec<u8> = (0u8..20).collect();
    let (png, tag) = split_locked_file(&file).unwrap();
    assert_eq!(png, vec![0u8, 1, 2, 3]);
    assert_eq!(tag.to_vec(), (4u8..20).collect::<Vec<u8>>());
}

#[test]
fn locked_image_unlocks_to_the_same_pixels() {
    let (key, text) = CryptoKey::generate().unwrap();
    let image = sample_image();
    let file = encrypt_image(&image, &key).unwrap();
    let again = CryptoKey::from_string(&text).unwrap();
    let restored = decrypt_image(&file, &again).unwrap();
    assert_eq!(restored.width, image.width);
    assert_eq!(restored.height, image.height);
    assert_eq!(restored.pixels, image.pixels);
}

#[test]
fn locked_file_is_a_png_of_noise_followed_by_the_tag() {
    let (key, _) = CryptoKey::generate().unwrap();
    let image = sample_image();
    let file = encrypt_image(&image, &key).unwrap();
    assert_eq!(&file[..8], &[137u8, 80, 78, 71, 13, 10, 26, 10]);
    let (png, tag) = split_locked_file(&file).unwrap();
    let (ciphertext, expected_tag) = key.encrypt(&image.pixels);
    assert_eq!(tag, expected_tag);
    let decoded = image::load_from_memory(&png).unwrap().to_rgba8();
    assert_eq!(decoded.dimensions(), (3, 2));
    assert_eq!(decoded.into_raw(), ciphertext);
    assert_ne!(ciphertext, image.pixels);
}

#[test]
fn locked_image_with_another_key_is_tampered() {
    let (key, _) = CryptoKey::generate().unwrap();
    let (other, _) = CryptoKey::generate().unwrap();
    let file = encrypt_image(&sample_image(), &key).unwrap();
    assert!(matches!(decrypt_image(&file, &other), Err(CryptixError::TamperedData)));
}

#[test]
fn altered_tag_is_tampered() {
    let (key, _) = CryptoKey::generate().unwrap();
    let mut file = encrypt_image(&sample_image(), &key).unwrap();
    let last = file.len() - 1;
    file[last] ^= 1;
    assert!(matches!(decrypt_image(&file, &key), Err(CryptixError::TamperedData)));
}

#[test]
fn garbage_before_the_tag_is_tampered() {
    let (key, _) = CryptoKey::generate().unwrap();
    let file = vec![42u8; 100];
    assert!(matches!(decrypt_image(&file, &key), Err(CryptixError::TamperedData)));
}

#[test]
fn altered_png_signature_is_tampered() {
    let (key, _) = CryptoKey::generate().unwrap();
    let mut file = encrypt_image(&sample_image(), &key).unwrap();
    file[1] ^= 0x20;
    assert!(matches!(decrypt_image(&file, &key), Err(CryptixError::TamperedData)));
    assert!(matches!(decrypt_image_file(&file, &key), Err(CryptixError::TamperedData)));
}

fn encode_as(img: &image::RgbaImage, format: image::ImageFormat) -> Vec<u8> {
    let mut out = Vec::new();
    img.write_to(&mut std::io::Cursor::new(&mut out), format).unwrap();
    out
}

fn sample_rgba() -> image::RgbaImage {
    let image = sample_image();
    image::RgbaImage::from_raw(image.width, image.height, image.pixels).unwrap()
}

#[test]
fn png_file_locks_and_unlocks_to_a_png_of_the_same_pixels() {
    let (key, _) = CryptoKey::generate().unwrap();
    let source = encode_as(&sample_rgba(), image::ImageFormat::Png);
    let locked = encrypt_image_file("photo.png", &source, &key).unwrap();
    let restored_png = decrypt_image_file(&locked, &key).unwrap();
    let restored = image::load_from_memory_with_format(&restored_png, image::ImageFormat::Png)
        .unwrap()
        .to_rgba8();
    assert_eq!(restored.dimensions(), (3, 2));
    assert_eq!(restored.into_raw(), sample_image().pixels);
}

#[test]
fn bmp_file_is_decoded_by_its_extension() {
    let (key, _) = CryptoKey::generate().unwrap();
    let source = encode_as(&sample_rgba(), image::ImageFormat::Bmp);
    let locked = encrypt_image_file("PHOTO.BMP", &source, &key).unwrap();
    let restored = decrypt_image(&locked, &key).unwrap();
    let expected = image::load_from_memory_with_format(&source, image::ImageFormat::Bmp)
        .unwrap()
        .to_rgba8();
    assert_eq!((restored.width, restored.height), expected.dimensions());
    assert_eq!(restored.pixels, expected.into_raw());
}

#[test]
fn extension_of_another_format_is_an_image_error() {
    let (key, _) = CryptoKey::generate().unwrap();
    let source = encode_as(&sample_rgba(), image::ImageFormat::Png);
    assert!(matches!(encrypt_image_file("photo.gif", &source, &key), Err(CryptixError::Image(_))));
    assert!(matches!(encrypt_image_file("photo", &source, &key), Err(CryptixError::Image(_))));
}

#[test]
fn bytes_of_another_format_are_an_image_error() {
    let (key, _) = CryptoKey::generate().unwrap();
    let source = encode_as(&sample_rgba(), image::ImageFormat::Png);
    assert!(matches!(encrypt_image_file("photo.jpg", &source, &key), Err(CryptixError::Image(_))));
    assert!(matches!(encrypt_image_file("photo.png", b"not an image", &key), Err(CryptixError::Image(_))));
}

#[test]
fn empty_image_cannot_be_written() {
    let (key, _) = CryptoKey::generate().unwrap();
    let image = PixelImage { width: 0, height: 0, pixels: Vec::new() };
    assert!(matches!(encrypt_image(&image, &key), Err(CryptixError::Image(_))));
}

#[test]
fn wide_image_round_trips() {
    let (key, _) = CryptoKey::generate().unwrap();
    let width = 8193u32;
    let pixels: Vec<u8> = (0..(width * 4)).map(|i| (i % 251) as u8).collect();
    let image = PixelImage { width, height: 1, pixels: pixels.clone() };
    let file = encrypt_image(&image, &key).unwrap();
    let restored = decrypt_image(&file, &key).unwrap();
    assert_eq!((restored.width, restored.height), (8193, 1));
    assert_eq!(restored.pixels, pixels);
}

#[test]
fn locked_image_re_encoded_losslessly_still_unlocks() {
    let (key, _) = CryptoKey::generate().unwrap();
    let image = sample_image();
    let file = encrypt_image(&image, &key).unwrap();
    let (png, tag) = split_locked_file(&file).unwrap();
    let noise = image::load_from_memory_with_format(&png, image::ImageFormat::Png).unwrap().to_rgba8();
    let mut bmp_file = encode_as(&noise, image::ImageFormat::Bmp);
    bmp_file.extend_from_slice(&tag);
    let restored = decrypt_image(&bmp_file, &key).unwrap();
    assert_eq!(restored.pixels, image.pixels);
}

fn unsupported_hint(res: Result<Vec<u8>, CryptixError>) -> image::error::ImageFormatHint {
    match res {
        Err(CryptixError::Image(image::ImageError::Unsupported(e))) => e.format_hint(),
        other => panic!("unexpected {:?}", other.map(|v| v.len())),
    }
}

#[test]
fn unsupported_inputs_get_image_open_errors() {
    let (key, _) = CryptoKey::generate().unwrap();
    let source = encode_as(&sample_rgba(), image::ImageFormat::Png);
    assert_eq!(unsupported_hint(encrypt_image_file("photo", &source, &key)), ImageFormatHint::Unknown);
    assert_eq!(unsupported_hint(encrypt_image_file("photo.", &source, &key)), ImageFormatHint::Unknown);
    assert_eq!(
        unsupported_hint(encrypt_image_file("photo.gif", &source, &key)),
        ImageFormatHint::Exact(image::ImageFormat::Gif)
    );
    assert!(matches!(
        unsupported_hint(encrypt_image_file("photo.xyz", &source, &key)),
        ImageFormatHint::PathExtension(_)
    ));
}

#[test]
fn locked_png_part_ends_with_iend() {
    let (key, _) = CryptoKey::generate().unwrap();
    let file = encrypt_image(&sample_image(), &key).unwrap();
    let (png, _tag) = split_locked_file(&file).unwrap();
    assert_eq!(&png[png.len() - 12..], &[0u8, 0, 0, 0, 73, 69, 78, 68, 0xae, 0x42, 0x60, 0x82]);
}

#[test]
fn unlocked_file_is_written_for_any_non_empty_image() {
    let (key, _) = CryptoKey::generate().unwrap();
    let image = PixelImage { width: 1, height: 1, pixels: vec![9, 8, 7, 6] };
    let file = encrypt_image(&image, &key).unwrap();
    let png = decrypt_image_file(&file, &key).unwrap();
    let back = image::load_from_memory_with_format(&png, image::ImageFormat::Png).unwrap().to_rgba8();
    assert_eq!(back.into_raw(), vec![9, 8, 7, 6]);
}
