use cryptix::naming::{generate_output_name, is_image_file, output_name_for_stem, select_image_files};
use cryptix::terminal::{banner_for_width, center_padding, Banner};

fn name(input: &str, suffix: &str) -> String {
    generate_output_name(input, suffix).unwrap()
}

#[test]
fn locked_name_gets_the_suffix_and_png() {
    assert_eq!(name("photo.jpg", "_locked"), "photo_locked.png");
    assert_eq!(name("photo.png", "_decrypted"), "photo_decrypted.png");
    assert_eq!(name("photo", "_locked"), "photo_locked.png");
}

#[test]
fn status_suffixes_do_not_pile_up() {
    assert_eq!(name("photo_locked.png", "_decrypted"), "photo_decrypted.png");
    assert_eq!(name("photo_locked.png", "_locked"), "photo_locked.png");
    assert_eq!(name("photo_decrypted.png", "_locked"), "photo_locked.png");
    assert_eq!(name("a_locked_decrypted_locked.png", "_locked"), "a_locked.png");
}

#[test]
fn suffix_inside_the_stem_is_kept() {
    assert_eq!(name("my_locked_photo.png", "_locked"), "my_locked_photo_locked.png");
    assert_eq!(name("photo_lockedx.png", "_decrypted"), "photo_lockedx_decrypted.png");
}

#[test]
fn dotted_names_use_the_last_dot() {
    assert_eq!(name("archive.tar.gz", "_locked"), "archive.tar_locked.png");
    assert_eq!(name(".hidden", "_locked"), ".hidden_locked.png");
    assert_eq!(name("trailing.", "_locked"), "trailing_locked.png");
    assert_eq!(name("_locked.png", "_decrypted"), "_decrypted.png");
}

#[test]
fn paths_without_a_stem_give_none() {
    assert_eq!(generate_output_name("", "_locked"), None);
    assert_eq!(generate_output_name("..", "_locked"), None);
}

#[test]
fn stem_naming_strips_repeatedly() {
    assert_eq!(output_name_for_stem("x_decrypted_locked", "_locked"), "x_locked.png");
    assert_eq!(output_name_for_stem("", "_locked"), "_locked.png");
}

#[test]
fn image_extensions_in_any_case() {
    for n in ["a.png", "a.PNG", "b.jpg", "c.JpEg", "d.webp", "e.BMP", "f.tar.png"] {
        assert!(is_image_file(n), "{}", n);
    }
    for n in ["a.txt", "png", ".png", "a.png.txt", "a.", "a.pngg", "a.jp"] {
        assert!(!is_image_file(n), "{}", n);
    }
}

#[test]
fn image_files_are_listed_sorted() {
    let names: Vec<String> = ["b.PNG", "a.txt", "c.jpeg", "A.bmp", "noext", "x.webp", ".png", "a.jpg"]
        .iter()
        .map(|s| s.to_string())
        .collect();
    assert_eq!(select_image_files(&names), vec!["A.bmp", "a.jpg", "b.PNG", "c.jpeg", "x.webp"]);
}

#[test]
fn listing_orders_like_string_sort() {
    let names: Vec<String> = ["é.png", "z.png", "Z.png", "ab.png", "a.png", "a.png"]
        .iter()
        .map(|s| s.to_string())
        .collect();
    let mut expected = names.clone();
    expected.sort();
    assert_eq!(select_image_files(&names), expected);
}

#[test]
fn empty_listing() {
    assert!(select_image_files(&Vec::new()).is_empty());
}

#[test]
fn banner_fits_the_width() {
    assert_eq!(banner_for_width(80), Banner::Large);
    assert_eq!(banner_for_width(62), Banner::Large);
    assert_eq!(banner_for_width(61), Banner::Small);
    assert_eq!(banner_for_width(40), Banner::Small);
    assert_eq!(banner_for_width(39), Banner::Compact);
}

#[test]
fn lines_are_centred() {
    assert_eq!(center_padding(10, 80), 35);
    assert_eq!(center_padding(11, 80), 34);
    assert_eq!(center_padding(80, 80), 0);
    assert_eq!(center_padding(100, 80), 0);
}

#[test]
fn directory_part_is_dropped() {
    assert_eq!(name("dir/photo_locked.png", "_decrypted"), "photo_decrypted.png");
    assert_eq!(name("/home/me/pics/a.b.jpg", "_locked"), "a.b_locked.png");
    assert_eq!(name("dir/", "_locked"), "dir_locked.png");
    assert_eq!(name("a/.", "_locked"), "a_locked.png");
    assert_eq!(generate_output_name("/", "_locked"), None);
    assert_eq!(generate_output_name("a/..", "_locked"), None);
}

#[test]
fn renaming_outputs_of_paths_is_stable() {
    let once = name("shots/x_decrypted.png", "_locked");
    assert_eq!(once, "x_locked.png");
    assert_eq!(name(&once, "_decrypted"), name("shots/x_decrypted.png", "_decrypted"));
}
