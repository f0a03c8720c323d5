//! The download marks and the configuration.

use tis::path::FilePath;
use tis::state::{default_thumb_size, AppState, Config, DirConfig, DownloadState, ServerConfig};

fn strings(names: &[&str]) -> Vec<String> {
    names.iter().map(|s| s.to_string()).collect()
}

fn server(cert: bool, key: bool) -> ServerConfig {
    ServerConfig {
        bind: "0.0.0.0:8080".to_string(),
        tls_cert: if cert { Some(FilePath::new("/c.pem")) } else { None },
        tls_key: if key { Some(FilePath::new("/k.pem")) } else { None },
        cache_dir: FilePath::new("/cache"),
        state_file: FilePath::new("/state.json"),
        thumb_size: default_thumb_size(),
    }
}

fn app(downloads: DownloadState) -> AppState {
    let config = Config {
        server: server(false, false),
        directories: vec![DirConfig { name: "P".to_string(), path: FilePath::new("/p") }],
    };
    AppState::new(config, downloads, vec![None])
}

#[test]
fn thumbnails_are_300_pixels_by_default() {
    assert_eq!(default_thumb_size(), 300);
}

#[test]
fn https_needs_certificate_and_key() {
    assert!(server(true, true).use_tls());
    assert!(!server(true, false).use_tls());
    assert!(!server(false, true).use_tls());
    assert!(!server(false, false).use_tls());
}

#[test]
fn nothing_is_marked_at_first() {
    let d = DownloadState::default();
    assert!(!d.contains("/p/a.jpg"));
    assert!(d.names().is_empty());
    assert!(DownloadState::restore(None).names().is_empty());
}

#[test]
fn toggling_marks_and_unmarks() {
    let mut d = DownloadState::default();
    assert!(d.toggle("/p/a.jpg"));
    assert!(d.contains("/p/a.jpg"));
    assert!(!d.toggle("/p/a.jpg"));
    assert!(!d.contains("/p/a.jpg"));
}

#[test]
fn toggling_twice_changes_nothing() {
    let mut d = DownloadState::restore(Some(strings(&["/b", "/a", "/d"])));
    let before = d.names().clone();
    for p in ["/a", "/c", "/d", ""] {
        d.toggle(p);
        d.toggle(p);
        assert_eq!(*d.names(), before);
    }
}

#[test]
fn toggling_leaves_other_marks_alone() {
    let mut d = DownloadState::restore(Some(strings(&["/b", "/a", "/d"])));
    assert!(d.toggle("/c"));
    assert!(!d.toggle("/a"));
    assert_eq!(*d.names(), strings(&["/b", "/c", "/d"]));
    for (p, marked) in [("/a", false), ("/b", true), ("/c", true), ("/d", true), ("/", false)] {
        assert_eq!(d.contains(p), marked);
    }
}

#[test]
fn restoring_drops_duplicates() {
    let d = DownloadState::restore(Some(strings(&["/x", "/a", "/x", "/a", "/X"])));
    assert_eq!(*d.names(), strings(&["/X", "/a", "/x"]));
}

#[test]
fn many_marks() {
    let mut d = DownloadState::default();
    for i in 0..200 {
        assert!(d.toggle(&format!("/p/{}.jpg", (i * 37) % 200)));
    }
    assert_eq!(d.names().len(), 200);
    for i in 0..200 {
        assert!(d.contains(&format!("/p/{i}.jpg")));
    }
    assert!(!d.contains("/p/200.jpg"));
}

#[test]
fn saved_state_is_json() {
    assert_eq!(app(DownloadState::default()).save_state(), "{\"marked\":[]}");
    let d = DownloadState::restore(Some(strings(&["/p/b \"x\".jpg", "/p/a.jpg"])));
    assert_eq!(
        app(d).save_state(),
        "{\"marked\":[\"/p/a.jpg\",\"/p/b \\\"x\\\".jpg\"]}"
    );
}

/// The list under `marked` in the text of a state file.
fn list_in(json: &str) -> String {
    let value: serde_json::Value = serde_json::from_str(json).unwrap();
    value["marked"].to_string()
}

#[test]
fn saved_marks_are_loaded() {
    for marks in [
        strings(&[]),
        strings(&["/p/a.jpg"]),
        strings(&["/p/a\nb.jpg", "/p/ü\\.png", "/p/\u{1}", "/p/日本.gif", "/p/\"q\".jpg"]),
    ] {
        let before = DownloadState::restore(Some(marks));
        let names = before.names().clone();
        let json = app(before).save_state();
        let after = DownloadState::load(Some(&list_in(&json)));
        assert_eq!(*after.names(), names);
        assert_eq!(app(after).save_state(), json);
    }
}

#[test]
fn escapes_in_the_state_file() {
    let d = DownloadState::restore(Some(strings(&["\u{8}\t\n\u{c}\r\"\\/\u{1}\u{1f}\u{7f}ü"])));
    assert_eq!(
        app(d).save_state(),
        "{\"marked\":[\"\\b\\t\\n\\f\\r\\\"\\\\/\\u0001\\u001f\u{7f}ü\"]}"
    );
}

#[test]
fn loading_a_list() {
    let d = DownloadState::load(Some(" [\"/b\", \"/a\\u0041\", \"/b\"] "));
    assert_eq!(*d.names(), strings(&["/aA", "/b"]));
}

#[test]
fn loading_what_is_no_list_of_strings() {
    for json in ["", "[", "null", "{}", "\"/a\"", "[1]", "[\"/a\", null]", "[\"/a\"] x"] {
        assert!(DownloadState::load(Some(json)).names().is_empty(), "{json}");
    }
    assert!(DownloadState::load(None).names().is_empty());
}

#[test]
fn saved_list_holds_each_mark_once() {
    let mut d = DownloadState::default();
    for p in ["/c", "/a", "/b", "/a", "/a"] {
        d.toggle(p);
    }
    assert_eq!(app(d).save_state(), "{\"marked\":[\"/a\",\"/b\",\"/c\"]}");
}
