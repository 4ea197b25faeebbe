use imgdup::index::{image_kind, ImageKind};

#[test]
fn the_three_extensions_qualify() {
    assert_eq!(image_kind("a.png"), Some(ImageKind::Png));
    assert_eq!(image_kind("a.jpg"), Some(ImageKind::Jpeg));
    assert_eq!(image_kind("a.jpeg"), Some(ImageKind::Jpeg));
    assert_eq!(image_kind("img1.png"), Some(ImageKind::Png));
    assert_eq!(image_kind("holiday photo.jpeg"), Some(ImageKind::Jpeg));
}

#[test]
fn only_the_last_extension_counts() {
    assert_eq!(image_kind("a.tar.png"), Some(ImageKind::Png));
    assert_eq!(image_kind("a.png.txt"), None);
    assert_eq!(image_kind("a.jpg.jpeg"), Some(ImageKind::Jpeg));
    assert_eq!(image_kind("..png"), Some(ImageKind::Png));
}

#[test]
fn extensions_are_matched_in_lower_case_only() {
    assert_eq!(image_kind("a.PNG"), None);
    assert_eq!(image_kind("a.Jpg"), None);
    assert_eq!(image_kind("a.JPEG"), None);
    assert_eq!(image_kind("a.pnG"), None);
}

#[test]
fn other_files_do_not_qualify() {
    assert_eq!(image_kind("notes.txt"), None);
    assert_eq!(image_kind("a.gif"), None);
    assert_eq!(image_kind("a.pngx"), None);
    assert_eq!(image_kind("a.jpe"), None);
    assert_eq!(image_kind("a.peg"), None);
    assert_eq!(image_kind("apng"), None);
    assert_eq!(image_kind("a."), None);
    assert_eq!(image_kind(""), None);
}

#[test]
fn a_name_that_is_all_extension_has_none() {
    assert_eq!(image_kind(".png"), None);
    assert_eq!(image_kind(".jpg"), None);
    assert_eq!(image_kind(".jpeg"), None);
    assert_eq!(image_kind("png"), None);
    assert_eq!(image_kind("jpeg"), None);
}

#[test]
fn names_beyond_ascii_are_read_by_symbol() {
    assert_eq!(image_kind("\u{e9}t\u{e9}.png"), Some(ImageKind::Png));
    assert_eq!(image_kind("\u{1F600}.jpeg"), Some(ImageKind::Jpeg));
    assert_eq!(image_kind("a.pn\u{e9}"), None);
}
