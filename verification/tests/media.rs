//! Image names and media types.

use tis::media::{is_image, mime_for_path};
use tis::path::FilePath;

fn mime(p: &str) -> &'static str {
    mime_for_path(&FilePath::new(p))
}

#[test]
fn image_endings_in_any_case() {
    for name in [
        "a.jpg", "a.jpeg", "a.png", "a.gif", "a.webp", "a.bmp", "a.tiff", "a.tif", "A.JPG", "x.WebP",
        "two.dots.PnG", ".jpg",
    ] {
        assert!(is_image(name), "{name}");
    }
}

#[test]
fn other_names_are_no_images() {
    for name in ["", "a", "a.txt", "a.jpg.txt", "jpg.", "a.jp", "a.jpgg", "ajpg", "a.jpg ", "ü.svg"] {
        assert!(!is_image(name), "{name}");
    }
}

#[test]
fn a_name_without_a_dot_is_its_own_ending() {
    assert!(is_image("jpg"));
    assert!(is_image("TIFF"));
    assert_eq!(mime("jpg"), "application/octet-stream");
}

#[test]
fn media_types_by_extension() {
    assert_eq!(mime("/p/a.jpg"), "image/jpeg");
    assert_eq!(mime("/p/a.JPEG"), "image/jpeg");
    assert_eq!(mime("a.png"), "image/png");
    assert_eq!(mime("a.Gif"), "image/gif");
    assert_eq!(mime("a.webp"), "image/webp");
    assert_eq!(mime("a.bmp"), "image/bmp");
    assert_eq!(mime("a.tiff"), "image/tiff");
    assert_eq!(mime("a.tif"), "image/tiff");
    assert_eq!(mime("a.txt"), "application/octet-stream");
    assert_eq!(mime("a"), "application/octet-stream");
    assert_eq!(mime(".jpg"), "application/octet-stream");
    assert_eq!(mime("/x.jpg/.."), "application/octet-stream");
    assert_eq!(mime(""), "application/octet-stream");
}

#[test]
fn listed_images_are_served_as_images() {
    for name in ["a.jpg", "b.TIF", "c d.WEBP", "e.f.gif"] {
        assert!(is_image(name));
        let path = FilePath::new("/srv/photos").join(name);
        assert!(mime_for_path(&path).starts_with("image/"));
    }
}

#[test]
fn served_images_are_listed() {
    for name in ["a.jpg", "b.TIF", "ü.b.Jpeg", ".a.bmp", ".jpg", "jpg", "a.txt", "a.jpgx", "a.ü"] {
        let path = FilePath::new("/srv/photos/").join(name);
        assert!(!mime_for_path(&path).starts_with("image/") || is_image(name), "{name}");
    }
    assert!(mime("/srv/photos/ü.b.Jpeg").starts_with("image/"));
    assert!(mime("/srv/photos/.a.bmp").starts_with("image/"));
}

#[test]
fn extension_that_is_not_utf8() {
    let p = FilePath { bytes: b"/a/b.jp\xff".to_vec() };
    assert_eq!(mime_for_path(&p), "application/octet-stream");
}
