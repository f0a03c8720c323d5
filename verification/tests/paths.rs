//! Paths, held against those of the standard library.

use std::path::Path;
use tis::path::{CanonicalPath, FilePath};

const SAMPLES: [&str; 30] = [
    "", "/", ".", "..", "a", "a/", "a//", "a/.", "a/./", "/.", "/..", "./.", "./a", "../a", "a/..",
    "a.jpg", "a.", ".a", ".a.b", "..a", "...", "a.b/c", "/a/b.JPG", "/a/b.JPG/", "/a/b.JPG/.",
    "a//b.c//", "x/.hidden", "x/.hidden.png", "a b.tar.gz", "/a/./b/../c.d",
];

fn text(b: Vec<u8>) -> String {
    String::from_utf8(b).unwrap()
}

fn canonical(s: &str) -> CanonicalPath {
    CanonicalPath::parse(&FilePath::new(s)).unwrap()
}

#[test]
fn file_names_match_std() {
    for s in SAMPLES {
        let expected = Path::new(s).file_name().map(|n| n.to_str().unwrap().to_string());
        assert_eq!(FilePath::new(s).file_name().map(text), expected, "{s}");
    }
}

#[test]
fn extensions_match_std() {
    for s in SAMPLES {
        let expected = Path::new(s).extension().map(|n| n.to_str().unwrap().to_string());
        assert_eq!(FilePath::new(s).extension().map(text), expected, "{s}");
    }
}

#[test]
fn joins_match_std() {
    for a in SAMPLES {
        for b in SAMPLES {
            let expected = Path::new(a).join(b);
            assert_eq!(text(FilePath::new(a).join(b).bytes), expected.to_str().unwrap());
        }
    }
}

#[test]
fn absolute_path_replaces_the_base() {
    assert_eq!(text(FilePath::new("/srv/photos").join("/etc/passwd").bytes), "/etc/passwd");
}

#[test]
fn canonical_paths_read_and_write_back() {
    for s in ["/", "/a", "/a/b", "/srv/photos/2024/x y.jpg"] {
        assert_eq!(text(canonical(s).path().bytes), s);
    }
}

#[test]
fn other_paths_are_not_canonical() {
    for s in ["", "a", "a/b", "/a/", "//", "/a//b", "/.", "/a/.", "/a/../b", "/..", "./a"] {
        assert!(CanonicalPath::parse(&FilePath::new(s)).is_none(), "{s}");
    }
}

#[test]
fn prefixes_match_std() {
    let all = ["/", "/a", "/a/b", "/a/bc", "/ab", "/a/b/c.jpg", "/b"];
    for p in all {
        for q in all {
            let (cp, cq) = (canonical(p), canonical(q));
            assert_eq!(cp.starts_with(&cq), Path::new(p).starts_with(q), "{p} {q}");
            let expected = Path::new(p).strip_prefix(q).ok().map(|r| r.to_str().unwrap().to_string());
            assert_eq!(cp.strip_prefix(&cq).map(|r| text(r.bytes)), expected, "{p} {q}");
        }
    }
}

#[test]
fn relative_path_leads_back() {
    for (base, full) in [("/", "/a/b"), ("/srv", "/srv/x"), ("/srv/p", "/srv/p/2024/x.jpg")] {
        let rel = canonical(full).strip_prefix(&canonical(base)).unwrap();
        let back = FilePath::new(base).join(&rel.to_text());
        assert_eq!(text(back.bytes), full);
    }
}

#[test]
fn clones_are_equal() {
    let p = canonical("/a/b");
    assert_eq!(p.clone().path().bytes, p.path().bytes);
    assert_eq!(FilePath::new("x").clone().bytes, b"x");
}

#[test]
fn text_replaces_what_is_not_utf8() {
    let p = FilePath { bytes: b"/a/\xff.jpg".to_vec() };
    assert_eq!(p.to_text(), "/a/\u{fffd}.jpg");
    assert_eq!(FilePath::new("/ü/日").to_text(), "/ü/日");
}

#[test]
fn bytes_keep_apart_what_text_does_not() {
    let base = CanonicalPath::parse(&FilePath { bytes: b"/data/\xff".to_vec() }).unwrap();
    let full = CanonicalPath::parse(&FilePath { bytes: b"/data/\xfe/x".to_vec() }).unwrap();
    assert!(!full.starts_with(&base));
}
