//! Thumbnails.

use tis::path::{CanonicalPath, FilePath};
use tis::reply::ReplyBody;
use tis::serve::ImageFile;
use tis::state::{AppState, Config, DownloadState, ServerConfig};
use tis::thumb::{
    check_buffers, check_weights, generate, get_or_create, make_thumbnail, serve_thumb, thumb_cache_path,
    thumb_reply, ThumbEvent, ThumbJob, ThumbStep,
};

fn canonical(s: &str) -> CanonicalPath {
    CanonicalPath::parse(&FilePath::new(s)).unwrap()
}

fn text(p: &FilePath) -> String {
    String::from_utf8(p.bytes.clone()).unwrap()
}

fn job() -> ThumbJob {
    get_or_create(&canonical("/p/x/a.jpg"), &FilePath::new("/cache"), 3, "x/a.jpg", 300)
}

fn picture(w: u32, h: u32) -> image::DynamicImage {
    let mut img = image::RgbImage::new(w, h);
    for (x, y, p) in img.enumerate_pixels_mut() {
        *p = image::Rgb([(x % 256) as u8, (y % 256) as u8, ((x * y) % 256) as u8]);
    }
    image::DynamicImage::ImageRgb8(img)
}

fn encoded(img: &image::DynamicImage, format: image::ImageOutputFormat) -> Vec<u8> {
    let mut buf = Vec::new();
    img.write_to(&mut std::io::Cursor::new(&mut buf), format).unwrap();
    buf
}

fn png(img: &image::DynamicImage) -> Vec<u8> {
    encoded(img, image::ImageOutputFormat::Png)
}

#[test]
fn cache_paths() {
    let p = thumb_cache_path(&FilePath::new("/home/pi/.cache/tis"), 0, "2024/a b.jpg");
    assert_eq!(text(&p), "/home/pi/.cache/tis/thumbs/0/2024/a b.jpg");
    assert_eq!(text(&thumb_cache_path(&FilePath::new("c/"), 12, "a")), "c/thumbs/12/a");
    assert_eq!(text(&thumb_cache_path(&FilePath::new(""), 7, "a")), "thumbs/7/a");
}

#[test]
fn cache_paths_differ() {
    let c = FilePath::new("/c");
    let all = [(0, "1/a"), (0, "a"), (1, "a"), (1, "1/a"), (11, "a"), (0, "1/1/a")];
    for (i, a) in all {
        for (j, b) in all {
            let same = text(&thumb_cache_path(&c, i, a)) == text(&thumb_cache_path(&c, j, b));
            assert_eq!(same, (i, a) == (j, b));
        }
    }
}

#[test]
fn the_cache_is_looked_at_first() {
    match job().start() {
        ThumbStep::CheckCache(p) => assert_eq!(text(&p), "/cache/thumbs/3/x/a.jpg"),
        _ => panic!(),
    }
}

#[test]
fn nothing_cached() {
    let j = job();
    let step = j.next(j.start(), ThumbEvent::Exists(false));
    assert!(matches!(step, ThumbStep::AcquirePermit));
    match j.next(step, ThumbEvent::Permit(Ok(()))) {
        ThumbStep::Generate(source, size) => {
            assert_eq!(text(&source.path()), "/p/x/a.jpg");
            assert_eq!(size, 300);
        }
        _ => panic!(),
    }
}

#[test]
fn cached_thumbnail_is_used_when_newer() {
    let times = [
        (Some(10), Some(11), true),
        (Some(10), Some(10), false),
        (Some(11), Some(10), false),
        (None, Some(11), false),
        (Some(10), None, false),
        (None, None, false),
        (Some(-5), Some(-4), true),
    ];
    for (source, cached, fresh) in times {
        let j = job();
        let step = j.next(j.start(), ThumbEvent::Exists(true));
        assert!(matches!(step, ThumbStep::CompareTimes(_, _)));
        match j.next(step, ThumbEvent::Times(source, cached)) {
            ThumbStep::ReadCache(p) => {
                assert!(fresh);
                assert_eq!(text(&p), "/cache/thumbs/3/x/a.jpg");
            }
            ThumbStep::AcquirePermit => assert!(!fresh),
            _ => panic!(),
        }
    }
}

fn done(step: ThumbStep) -> Result<Vec<u8>, String> {
    match step {
        ThumbStep::Done(r) => r,
        _ => panic!(),
    }
}

#[test]
fn outcomes_are_handed_on() {
    let j = job();
    let read = |r| done(j.next(ThumbStep::ReadCache(FilePath::new("c")), ThumbEvent::Read(r)));
    assert_eq!(read(Ok(vec![1, 2])), Ok(vec![1, 2]));
    assert_eq!(read(Err("io".to_string())), Err("io".to_string()));
    let permit = ThumbEvent::Permit(Err("closed".to_string()));
    assert_eq!(done(j.next(ThumbStep::AcquirePermit, permit)), Err("closed".to_string()));
    let failed = |r| {
        let step = ThumbStep::Generate(canonical("/p/a"), 300);
        done(j.next(step, ThumbEvent::Generated(r)))
    };
    assert_eq!(failed(Ok(Err("bad".to_string()))), Err("bad".to_string()));
    assert_eq!(failed(Err("panicked".to_string())), Err("panicked".to_string()));
}

#[test]
fn only_thumbnails_are_stored() {
    let j = job();
    let step = ThumbStep::Generate(canonical("/p/x/a.jpg"), 300);
    let step = j.next(step, ThumbEvent::Generated(Ok(Ok(vec![3, 4]))));
    match &step {
        ThumbStep::Store(cache, bytes) => {
            assert_eq!(text(cache), "/cache/thumbs/3/x/a.jpg");
            assert_eq!(*bytes, [3, 4]);
        }
        _ => panic!(),
    }
    assert_eq!(done(j.next(step, ThumbEvent::Stored)), Ok(vec![3, 4]));
}

#[test]
fn requests_for_thumbnails() {
    let config = Config {
        server: ServerConfig {
            bind: "127.0.0.1:80".to_string(),
            tls_cert: None,
            tls_key: None,
            cache_dir: FilePath::new("/cache"),
            state_file: FilePath::new("/state"),
            thumb_size: 123,
        },
        directories: Vec::new(),
    };
    let app = AppState::new(config, DownloadState::default(), Vec::new());
    let found = Some(ImageFile { full: canonical("/p/a.jpg"), relative: "a.jpg".to_string() });
    match serve_thumb(&app, 4, &found) {
        Ok(j) => {
            assert_eq!(text(&j.source.path()), "/p/a.jpg");
            assert_eq!(text(&j.cache_path), "/cache/thumbs/4/a.jpg");
            assert_eq!(j.size, 123);
        }
        Err(_) => panic!(),
    }
    match serve_thumb(&app, 4, &None) {
        Ok(_) => panic!(),
        Err(reply) => assert_eq!(reply.status, 404),
    }
}

#[test]
fn thumbnail_answers() {
    let reply = thumb_reply(Ok(vec![0xff, 0xd8]));
    assert_eq!(reply.status, 200);
    let headers: Vec<(&str, &str)> = reply.headers.iter().map(|(n, v)| (*n, v.as_str())).collect();
    assert_eq!(
        headers,
        [("content-type", "image/jpeg"), ("cache-control", "public, max-age=86400")]
    );
    match reply.body {
        ReplyBody::Bytes(b) => assert_eq!(b, [0xff, 0xd8]),
        _ => panic!(),
    }
    let reply = thumb_reply(Err("no".to_string()));
    assert_eq!(reply.status, 500);
    assert!(reply.headers.is_empty());
    assert!(matches!(reply.body, ReplyBody::Empty));
}

/// An image as it is opened from the contents of a file.
fn opened(data: &[u8], format: image::ImageFormat) -> Result<image::DynamicImage, String> {
    image::load_from_memory_with_format(data, format).map_err(|e| e.to_string())
}

fn jpeg_dimensions(file: &[u8]) -> (u32, u32) {
    let img = opened(file, image::ImageFormat::Jpeg).unwrap();
    (img.width(), img.height())
}

#[test]
fn thumbnail_is_a_resized_jpeg() {
    let img = picture(64, 32);
    let made = generate(opened(&png(&img), image::ImageFormat::Png), 20).unwrap().unwrap();
    let small = img.resize(20, 20, image::imageops::FilterType::Triangle);
    assert_eq!(made, encoded(&small, image::ImageOutputFormat::Jpeg(70)));
    assert_eq!(jpeg_dimensions(&made), (20, 10));
}

#[test]
fn frame_header_follows_the_jfif_header() {
    let made = make_thumbnail(&picture(600, 400), 300).unwrap();
    assert_eq!(made[..4], [0xff, 0xd8, 0xff, 0xe0]);
    assert_eq!(made[20..22], [0xff, 0xc0]);
    assert_eq!(made[25..29], [0, 200, 1, 44]);
    let gray = image::DynamicImage::ImageLuma8(image::ImageBuffer::new(3, 9));
    let made = make_thumbnail(&gray, 9).unwrap();
    assert_eq!(made[20..22], [0xff, 0xc0]);
    assert_eq!(made[25..29], [0, 9, 0, 3]);
}

#[test]
fn images_of_all_kinds_of_files() {
    let img = picture(40, 30);
    for (format, output) in [
        (image::ImageFormat::Jpeg, image::ImageOutputFormat::Jpeg(90)),
        (image::ImageFormat::Png, image::ImageOutputFormat::Png),
        (image::ImageFormat::Gif, image::ImageOutputFormat::Gif),
        (image::ImageFormat::Bmp, image::ImageOutputFormat::Bmp),
        (image::ImageFormat::Tiff, image::ImageOutputFormat::Tiff),
    ] {
        let made = generate(opened(&encoded(&img, output), format), 20).unwrap().unwrap();
        assert_eq!(jpeg_dimensions(&made), (20, 15), "{format:?}");
    }
}

#[test]
fn thumbnails_keep_their_shape() {
    for (w, h, size, expected) in [
        (10, 10, 20, (20, 20)),
        (100, 100, 50, (50, 50)),
        (7, 30, 15, (4, 15)),
        (200, 1, 10, (10, 1)),
        (3, 5, 1, (1, 1)),
        (3, 5, 0, (1, 1)),
        (12, 12, 12, (12, 12)),
        (3, 2, 300, (300, 200)),
        (1, 1, 300, (300, 300)),
    ] {
        let made = make_thumbnail(&picture(w, h), size).unwrap();
        assert_eq!(jpeg_dimensions(&made), expected);
    }
}

#[test]
fn resizing_by_the_formula() {
    let mut n: u64 = 99;
    for _ in 0..200 {
        n = n.wrapping_mul(6364136223846793005).wrapping_add(1442695040888963407);
        let (w, h, size) = ((n >> 20) % 90 + 1, (n >> 34) % 90 + 1, (n >> 48) % 90 + 1);
        let made = make_thumbnail(&picture(w as u32, h as u32), size as u32).unwrap();
        let (nw, nh) = jpeg_dimensions(&made);
        let (long, short) = (w.max(h), w.min(h));
        let (new_long, new_short) = if w >= h { (nw, nh) } else { (nh, nw) };
        assert_eq!(new_long as u64, size);
        let share = size as f64 * short as f64 / long as f64;
        assert!((new_short as f64 - share.max(1.0)).abs() < 1.0);
    }
}

#[test]
fn broken_image() {
    let broken = opened(b"not a png", image::ImageFormat::Png);
    let text = broken.as_ref().err().unwrap().clone();
    let e = generate(broken, 10).unwrap().unwrap_err();
    assert_eq!(e, format!("failed to open image: {text}"));
}

#[test]
fn image_that_could_not_be_read() {
    let made = generate(Err("permission denied".to_string()), 300);
    assert_eq!(made, Some(Err("failed to open image: permission denied".to_string())));
}

#[test]
fn image_that_jpeg_cannot_hold() {
    let deep = image::DynamicImage::ImageRgb16(image::ImageBuffer::new(8, 8));
    let e = generate(Ok(deep), 4).unwrap().unwrap_err();
    assert!(e.starts_with("failed to encode thumbnail: "), "{e}");
}

#[test]
fn thumbnail_that_is_too_long_for_jpeg() {
    let long = image::DynamicImage::ImageLuma8(image::ImageBuffer::new(2097152, 1));
    let e = generate(Ok(long), 65536).unwrap().unwrap_err();
    assert!(e.starts_with("failed to encode thumbnail: "), "{e}");
}

#[test]
fn empty_picture() {
    for (w, h) in [(0, 0), (5, 0), (0, 5)] {
        let img = image::DynamicImage::ImageRgb8(image::ImageBuffer::new(w, h));
        assert!(generate(Ok(img), 10).is_some());
    }
}

#[test]
fn buffers_for_resizing() {
    assert!(check_buffers(65535, 65535, 3, 300));
    assert!(check_buffers(2097152, 1, 1, 65536));
    assert!(check_buffers(20000, 100, 3, 10000));
    assert!(check_buffers(100, 100, 3, 12000));
    assert!(check_buffers(u32::MAX, 1, 4, 300));
    assert!(check_buffers(u32::MAX, u32::MAX, 4, u32::MAX));
    assert!(check_buffers(0, 0, 4, 0));
    assert!(check_buffers(1000, 1000, 4, 0));
    assert!(check_buffers(1048577, 1, 1, 8388609));
    assert!(!check_buffers(2, 2, 3, u32::MAX));
}

#[test]
fn weights_in_resizing() {
    assert!(check_weights(0x4000_0000, 1, 0x40_0000));
    assert!(check_weights(0x40_0000, 1, 0x80_0000));
    assert!(!check_weights(0x40_0001, 1, 0x80_0000));
    assert!(check_weights(0x10_0000, 1, 0x80_0001));
    assert!(!check_weights(0x10_0001, 1, 0x80_0001));
    assert!(!check_weights(1, 0x10_0001, 0x80_0001));
    assert!(check_weights(0x80_0001, 1, 0x80_0001));
}

/// Pictures of every kind that is opened from a file, in one size.
fn pictures(w: u32, h: u32) -> Vec<image::DynamicImage> {
    vec![
        image::DynamicImage::new_luma8(w, h),
        image::DynamicImage::new_luma_a8(w, h),
        image::DynamicImage::new_rgb8(w, h),
        image::DynamicImage::new_rgba8(w, h),
        image::DynamicImage::new_luma16(w, h),
        image::DynamicImage::new_luma_a16(w, h),
        image::DynamicImage::new_rgb16(w, h),
        image::DynamicImage::new_rgba16(w, h),
        image::DynamicImage::new_rgb32f(w, h),
        image::DynamicImage::new_rgba32f(w, h),
    ]
}

fn jpeg_error(img: &image::DynamicImage) -> String {
    let mut out = std::io::Cursor::new(Vec::new());
    img.write_to(&mut out, image::ImageOutputFormat::Jpeg(70)).unwrap_err().to_string()
}

#[test]
fn what_is_too_long_for_jpeg_fails_alike() {
    for (long, small) in pictures(70000, 1).iter().zip(pictures(1, 65536)) {
        assert_eq!(jpeg_error(long), jpeg_error(&small));
        let resized = long.resize(66000, 66000, image::imageops::FilterType::Triangle);
        assert_eq!(jpeg_error(long), jpeg_error(&resized));
        let made = generate(Ok(long.clone()), 66000);
        assert_eq!(made, Some(Err(format!("failed to encode thumbnail: {}", jpeg_error(long)))));
    }
}

#[test]
fn picture_that_is_too_long_to_weigh() {
    for img in pictures(1048577, 1) {
        let expected = format!("failed to encode thumbnail: {}", jpeg_error(&img));
        assert_eq!(generate(Ok(img), 8388609), Some(Err(expected)));
    }
    let gray = image::DynamicImage::new_luma8(1, 1048577);
    assert_eq!(
        generate(Ok(gray), 8388609).unwrap().unwrap_err(),
        "failed to encode thumbnail: The Image's dimensions are either too small or too large"
    );
}

#[test]
fn size_beyond_all_bounds() {
    assert_eq!(generate(Ok(picture(2, 2)), u32::MAX), None);
}
