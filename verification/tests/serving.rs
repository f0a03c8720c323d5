//! Finding, sending and marking images.

use tis::path::{CanonicalPath, FilePath};
use tis::reply::{Reply, ReplyBody};
use tis::serve::{
    resolve_image_path, serve_download, serve_image, stream_file, toggle_mark, FileProbe, ImageFile,
    ImageLookup, LookupEvent, LookupStep,
};
use tis::state::{AppState, Config, DirConfig, DownloadState, ServerConfig};

fn canonical(s: &str) -> CanonicalPath {
    CanonicalPath::parse(&FilePath::new(s)).unwrap()
}

fn app() -> AppState {
    let config = Config {
        server: ServerConfig {
            bind: "127.0.0.1:80".to_string(),
            tls_cert: None,
            tls_key: None,
            cache_dir: FilePath::new("/cache"),
            state_file: FilePath::new("/state"),
            thumb_size: 300,
        },
        directories: vec![
            DirConfig { name: "Photos".to_string(), path: FilePath::new("/srv/photos") },
            DirConfig { name: "Gone".to_string(), path: FilePath::new("/gone") },
        ],
    };
    AppState::new(config, DownloadState::default(), vec![Some(canonical("/srv/photos")), None])
}

fn lookup(path: &str) -> ImageLookup {
    resolve_image_path(&app(), 0, path).unwrap()
}

fn found(full: &str, relative: &str) -> Option<ImageFile> {
    Some(ImageFile { full: canonical(full), relative: relative.to_string() })
}

fn headers(reply: &Reply) -> Vec<(&str, &str)> {
    reply.headers.iter().map(|(n, v)| (*n, v.as_str())).collect()
}

fn text(p: &FilePath) -> String {
    String::from_utf8(p.bytes.clone()).unwrap()
}

#[test]
fn nothing_to_find_without_a_directory() {
    assert!(resolve_image_path(&app(), 1, "a.jpg").is_none());
    assert!(resolve_image_path(&app(), 2, "a.jpg").is_none());
}

#[test]
fn the_path_is_resolved_first() {
    match lookup("x/a.jpg").start() {
        LookupStep::Canonicalize(p) => assert_eq!(text(&p), "/srv/photos/x/a.jpg"),
        _ => panic!(),
    }
}

#[test]
fn unresolved_and_outside_paths_are_not_found() {
    let l = lookup("x");
    assert!(matches!(l.next(l.start(), LookupEvent::Canonical(None)), LookupStep::NotFound));
    for full in ["/etc/passwd", "/srv", "/srv/photos2/a.jpg"] {
        let event = LookupEvent::Canonical(Some(canonical(full)));
        assert!(matches!(l.next(l.start(), event), LookupStep::NotFound));
    }
}

#[test]
fn files_inside_are_found() {
    let l = lookup("y/../x/a b.jpg");
    let event = LookupEvent::Canonical(Some(canonical("/srv/photos/x/a b.jpg")));
    let step = l.next(l.start(), event);
    match &step {
        LookupStep::CheckFile(full) => assert_eq!(text(&full.path()), "/srv/photos/x/a b.jpg"),
        _ => panic!(),
    }
    match l.next(step, LookupEvent::File(true)) {
        LookupStep::Found(f) => {
            assert_eq!(text(&f.full.path()), "/srv/photos/x/a b.jpg");
            assert_eq!(f.relative, "x/a b.jpg");
        }
        _ => panic!(),
    }
}

#[test]
fn what_is_no_file_is_not_found() {
    let l = lookup("x");
    let step = LookupStep::CheckFile(canonical("/srv/photos/x"));
    assert!(matches!(l.next(step, LookupEvent::File(false)), LookupStep::NotFound));
}

#[test]
fn image_is_streamed() {
    let reply = serve_image(&found("/srv/photos/x/a.JPG", "x/a.JPG"), FileProbe::Length(12345));
    assert_eq!(reply.status, 200);
    assert_eq!(
        headers(&reply),
        [
            ("content-type", "image/jpeg"),
            ("content-length", "12345"),
            ("cache-control", "public, max-age=3600"),
        ]
    );
    assert!(matches!(reply.body, ReplyBody::File));
}

#[test]
fn download_names_the_file() {
    let reply = serve_download(&found("/srv/photos/x/ü 1.png", "x/ü 1.png"), FileProbe::Length(0));
    assert_eq!(reply.status, 200);
    assert_eq!(
        headers(&reply),
        [
            ("content-type", "image/png"),
            ("content-length", "0"),
            ("cache-control", "public, max-age=3600"),
            ("content-disposition", "attachment; filename=\"ü 1.png\""),
        ]
    );
}

#[test]
fn download_of_a_path_without_a_name() {
    let reply = stream_file(&FilePath::new("/"), FileProbe::Length(u64::MAX), true);
    assert_eq!(
        headers(&reply),
        [
            ("content-type", "application/octet-stream"),
            ("content-length", "18446744073709551615"),
            ("cache-control", "public, max-age=3600"),
            ("content-disposition", "attachment; filename=\"\""),
        ]
    );
}

#[test]
fn files_that_cannot_be_opened() {
    let f = found("/srv/photos/a.jpg", "a.jpg");
    for (probe, status) in [(FileProbe::NotOpened, 404), (FileProbe::NoMetadata, 500)] {
        let reply = serve_image(&f, probe);
        assert_eq!(reply.status, status);
        assert!(reply.headers.is_empty());
        assert!(matches!(reply.body, ReplyBody::Empty));
    }
    assert_eq!(serve_image(&None, FileProbe::Length(1)).status, 404);
    assert_eq!(serve_download(&None, FileProbe::Length(1)).status, 404);
}

fn json(reply: &Reply) -> &str {
    assert_eq!(reply.status, 200);
    assert_eq!(headers(reply), [("content-type", "application/json")]);
    match &reply.body {
        ReplyBody::Text(t) => t,
        _ => panic!(),
    }
}

#[test]
fn marking_and_unmarking() {
    let mut state = app();
    let f = found("/srv/photos/a.jpg", "a.jpg");
    assert_eq!(json(&toggle_mark(&mut state, &f)), "{\"marked\":true}");
    assert!(state.downloads.contains("/srv/photos/a.jpg"));
    assert_eq!(json(&toggle_mark(&mut state, &f)), "{\"marked\":false}");
    assert!(!state.downloads.contains("/srv/photos/a.jpg"));
}

#[test]
fn marking_what_is_not_found() {
    let mut state = app();
    let reply = toggle_mark(&mut state, &None);
    assert_eq!(reply.status, 404);
    assert!(matches!(reply.body, ReplyBody::Empty));
    assert!(state.downloads.names().is_empty());
}
