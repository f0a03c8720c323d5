//! Browsing directories.

use tis::browse::{
    browse_inner, browse_root, browse_sub, list_entries, Browse, BrowseEvent, BrowseStep, DirEntry,
    EntryKind,
};
use tis::escape::{simple_hash, url_encode};
use tis::html::{error_page, page, FOLDER_ICON, JS};
use tis::path::{CanonicalPath, FilePath};
use tis::reply::{Reply, ReplyBody};
use tis::state::{AppState, Config, DirConfig, DownloadState, ServerConfig};

fn canonical(s: &str) -> CanonicalPath {
    CanonicalPath::parse(&FilePath::new(s)).unwrap()
}

fn app() -> AppState {
    let config = Config {
        server: ServerConfig {
            bind: "127.0.0.1:80".to_string(),
            tls_cert: None,
            tls_key: None,
            cache_dir: FilePath::new("/cache"),
            state_file: FilePath::new("/state"),
            thumb_size: 300,
        },
        directories: vec![
            DirConfig { name: "Photos".to_string(), path: FilePath::new("/srv/photos") },
            DirConfig { name: "Gone".to_string(), path: FilePath::new("/gone") },
        ],
    };
    AppState::new(config, DownloadState::default(), vec![Some(canonical("/srv/photos")), None])
}

fn entry(name: &str, kind: EntryKind) -> DirEntry {
    DirEntry { name: name.as_bytes().to_vec(), kind: Some(kind) }
}

fn html_of(reply: Reply) -> (u16, String) {
    match reply.body {
        ReplyBody::Html(page) => (reply.status, page),
        _ => panic!("not a page"),
    }
}

fn answer(step: BrowseStep) -> (u16, String) {
    match step {
        BrowseStep::Respond(reply) => html_of(reply),
        _ => panic!("not an answer"),
    }
}

fn error(status: u16, message: &str) -> (u16, String) {
    html_of(error_page(status, message))
}

fn begin(path: &str) -> Browse {
    match browse_sub(&app(), 0, path) {
        Ok(b) => b,
        Err(_) => panic!("not begun"),
    }
}

fn text(p: &FilePath) -> String {
    String::from_utf8(p.bytes.clone()).unwrap()
}

#[test]
fn unknown_directory() {
    match browse_inner(&app(), 2, "x") {
        Err(reply) => assert_eq!(html_of(reply), error(404, "Directory not found")),
        Ok(_) => panic!(),
    }
}

#[test]
fn directory_that_could_not_be_resolved() {
    match browse_root(&app(), 1) {
        Err(reply) => assert_eq!(html_of(reply), error(404, "Directory not accessible")),
        Ok(_) => panic!(),
    }
}

#[test]
fn the_directory_itself_is_not_resolved_again() {
    let b = match browse_root(&app(), 0) {
        Ok(b) => b,
        Err(_) => panic!(),
    };
    assert_eq!((b.dir_idx, b.dir_name.as_str(), b.sub_path.as_str()), (0, "Photos", ""));
    match b.start() {
        BrowseStep::CheckDirectory(full) => assert_eq!(text(&full.path()), "/srv/photos"),
        _ => panic!(),
    }
}

#[test]
fn paths_below_are_resolved() {
    match begin("2024/my trip").start() {
        BrowseStep::Canonicalize(p) => assert_eq!(text(&p), "/srv/photos/2024/my trip"),
        _ => panic!(),
    }
    match begin("/etc").start() {
        BrowseStep::Canonicalize(p) => assert_eq!(text(&p), "/etc"),
        _ => panic!(),
    }
}

#[test]
fn path_that_does_not_resolve() {
    let b = begin("x");
    let next = b.next(&DownloadState::default(), b.start(), BrowseEvent::Canonical(None));
    assert_eq!(answer(next), error(404, "Path not found"));
}

#[test]
fn paths_outside_are_denied() {
    for full in ["/etc", "/srv", "/", "/srv/photos2", "/srv/photos-private/x"] {
        let b = begin("x");
        let event = BrowseEvent::Canonical(Some(canonical(full)));
        let next = b.next(&DownloadState::default(), b.start(), event);
        assert_eq!(answer(next), error(403, "Access denied"));
    }
}

#[test]
fn paths_inside_are_looked_at() {
    let d = DownloadState::default();
    let b = begin("x/../2024");
    let event = BrowseEvent::Canonical(Some(canonical("/srv/photos/2024")));
    let step = b.next(&d, b.start(), event);
    match &step {
        BrowseStep::CheckDirectory(full) => assert_eq!(text(&full.path()), "/srv/photos/2024"),
        _ => panic!(),
    }
    match b.next(&d, step, BrowseEvent::Directory(true)) {
        BrowseStep::ReadDirectory(full) => assert_eq!(text(&full.path()), "/srv/photos/2024"),
        _ => panic!(),
    }
}

#[test]
fn not_a_directory() {
    let b = begin("a.jpg");
    let step = BrowseStep::CheckDirectory(canonical("/srv/photos/a.jpg"));
    let next = b.next(&DownloadState::default(), step, BrowseEvent::Directory(false));
    assert_eq!(answer(next), error(404, "Not a directory"));
}

#[test]
fn directory_that_cannot_be_read() {
    let b = begin("x");
    let step = BrowseStep::ReadDirectory(canonical("/srv/photos/x"));
    let next = b.next(&DownloadState::default(), step, BrowseEvent::Entries(None));
    assert_eq!(answer(next), error(500, "Cannot read directory"));
}

#[test]
fn listing_sorts_and_filters() {
    let entries = vec![
        entry("b.jpg", EntryKind::File),
        entry("Zoo", EntryKind::Directory),
        entry(".hidden.jpg", EntryKind::File),
        entry(".git", EntryKind::Directory),
        entry("A.PNG", EntryKind::File),
        entry("notes.txt", EntryKind::File),
        entry("link.jpg", EntryKind::Other),
        entry("apes", EntryKind::Directory),
        entry("dir.jpg", EntryKind::Directory),
        DirEntry { name: b"unknown.jpg".to_vec(), kind: None },
        DirEntry { name: b"bad\xff.gif".to_vec(), kind: Some(EntryKind::File) },
    ];
    let listing = list_entries(&entries);
    assert_eq!(listing.subdirs, ["apes", "dir.jpg", "Zoo"]);
    assert_eq!(listing.images, ["A.PNG", "b.jpg", "bad\u{fffd}.gif"]);
}

#[test]
fn empty_listing() {
    let listing = list_entries(&Vec::new());
    assert!(listing.subdirs.is_empty() && listing.images.is_empty());
}

/// The page as it is put together from its parts by formatting.
fn expected_page(
    sub_path: &str,
    full: &str,
    subdirs: &[&str],
    images: &[&str],
    marked: &[&str],
) -> String {
    let esc = |s: &str| {
        s.replace('&', "&amp;").replace('<', "&lt;").replace('>', "&gt;").replace('"', "&quot;")
    };
    let mut breadcrumb = String::from(
        r#"<nav class="breadcrumb"><a href="/">Home</a> / <a href="/browse/0">Photos</a>"#,
    );
    if !sub_path.is_empty() {
        let parts: Vec<&str> = sub_path.split('/').collect();
        for (i, part) in parts.iter().enumerate() {
            let partial = parts[..=i].join("/");
            breadcrumb.push_str(&format!(
                r#" / <a href="/browse/0/{}">{}</a>"#,
                url_encode(&partial),
                esc(part)
            ));
        }
    }
    breadcrumb.push_str("</nav>");

    let link = |name: &str| {
        if sub_path.is_empty() {
            url_encode(name)
        } else {
            format!("{}/{}", url_encode(sub_path), url_encode(name))
        }
    };
    let mut dirs_html = String::new();
    for name in subdirs {
        dirs_html.push_str(&format!(
            r#"<a class="dir-link" href="/browse/0/{}">{} {}</a>"#,
            link(name),
            FOLDER_ICON,
            esc(name)
        ));
    }
    let mut grid_html = String::new();
    for name in images {
        let rel_path = link(name);
        let abs = format!("{full}/{name}");
        let is_marked = marked.contains(&abs.as_str());
        let card_class = if is_marked { "card downloaded" } else { "card" };
        let mark_active = if is_marked { " active" } else { "" };
        grid_html.push_str(&format!(
            r#"<div class="{card_class}" id="c{hash}">
<a href="/image/0/{rel_path}" target="_blank" rel="noopener">
<img src="/thumb/0/{rel_path}" alt="{name}" loading="lazy">
</a><div class="card-info">
<span class="card-name" title="{name}">{name}</span>
<div class="card-actions">
<a class="btn btn-dl" href="/download/0/{rel_path}" title="Download">&#8615;</a>
<button class="btn btn-mark{mark_active}" onclick="toggleMark(0,'{rel_path}',this)" title="Mark downloaded">&#10003;</button>
</div></div></div>"#,
            hash = simple_hash(&abs),
            name = esc(name),
        ));
    }
    let count_info = format!(
        "{} folder{}, {} image{}",
        subdirs.len(),
        if subdirs.len() == 1 { "" } else { "s" },
        images.len(),
        if images.len() == 1 { "" } else { "s" },
    );
    let dirs_section = if dirs_html.is_empty() {
        String::new()
    } else {
        format!(r#"<div class="dir-list">{dirs_html}</div>"#)
    };
    let grid_section = if grid_html.is_empty() {
        r#"<p class="empty">No images in this directory.</p>"#.to_string()
    } else {
        format!(r#"<div class="grid">{grid_html}</div>"#)
    };
    let body = format!(
        r#"{breadcrumb}
<p class="count-info">{count_info}</p>
{dirs_section}
{grid_section}
<script>{JS}</script>"#,
    );
    page("tis - browse", &body)
}

fn shown(sub_path: &str, full: &str, entries: Vec<DirEntry>, marked: &[&str]) -> (u16, String) {
    let b = begin(sub_path);
    let marks = marked.iter().map(|s| s.to_string()).collect();
    let downloads = DownloadState::restore(Some(marks));
    let step = BrowseStep::ReadDirectory(canonical(full));
    answer(b.next(&downloads, step, BrowseEvent::Entries(Some(entries))))
}

#[test]
fn page_of_an_empty_directory() {
    let (status, text) = shown("", "/srv/photos", Vec::new(), &[]);
    assert_eq!(status, 200);
    assert_eq!(text, expected_page("", "/srv/photos", &[], &[], &[]));
}

#[test]
fn page_of_the_directory_itself() {
    let entries = vec![entry("one.jpg", EntryKind::File), entry("sub dir", EntryKind::Directory)];
    let (_, text) = shown("", "/srv/photos", entries, &[]);
    assert_eq!(text, expected_page("", "/srv/photos", &["sub dir"], &["one.jpg"], &[]));
    assert!(text.contains("1 folder, 1 image<"));
}

#[test]
fn page_of_a_subdirectory() {
    let entries = vec![
        entry("b & \"c\".jpg", EntryKind::File),
        entry("A's <x>.png", EntryKind::File),
        entry("n1", EntryKind::Directory),
        entry("N0", EntryKind::Directory),
    ];
    let (_, text) = shown("2024/my trip", "/srv/photos/2024/my trip", entries, &[]);
    assert_eq!(
        text,
        expected_page(
            "2024/my trip",
            "/srv/photos/2024/my trip",
            &["N0", "n1"],
            &["A's <x>.png", "b & \"c\".jpg"],
            &[]
        )
    );
    assert!(text.contains("2 folders, 2 images<"));
}

#[test]
fn cards_show_their_marks() {
    let marked = ["/srv/photos/x/b.jpg"];
    let files =
        || vec![entry("a.jpg", EntryKind::File), entry("b.jpg", EntryKind::File)];
    let (_, text) = shown("x", "/srv/photos/x", files(), &marked);
    assert_eq!(text, expected_page("x", "/srv/photos/x", &[], &["a.jpg", "b.jpg"], &marked));
    assert_eq!(text.matches("card downloaded").count(), 1);
    assert_eq!(text.matches("btn-mark active\"").count(), 1);
}

#[test]
fn breadcrumb_of_odd_paths() {
    for sub in ["a//b", "a/", "ü/100%", "..", "a/../b"] {
        let (_, text) = shown(sub, "/srv/photos", Vec::new(), &[]);
        assert_eq!(text, expected_page(sub, "/srv/photos", &[], &[], &[]));
    }
}

#[test]
fn start_page_links_work() {
    let text = html_of(tis::html::index(&app())).1;
    assert!(text.contains("<a class=\"dir-link\" href=\"/browse/0\">"));
    assert!(browse_root(&app(), 0).is_ok());
    assert!(text.contains("<a class=\"dir-link disabled\" href=\"/browse/1\">"));
    assert!(browse_root(&app(), 1).is_err());
}

#[test]
fn directories_inside_are_shown() {
    let d = DownloadState::default();
    let b = begin("2024");
    let mut step = b.start();
    for event in [
        BrowseEvent::Canonical(Some(canonical("/srv/photos/2024"))),
        BrowseEvent::Directory(true),
        BrowseEvent::Entries(Some(vec![entry("a.jpg", EntryKind::File)])),
    ] {
        step = b.next(&d, step, event);
    }
    let expected = expected_page("2024", "/srv/photos/2024", &[], &["a.jpg"], &[]);
    assert_eq!(answer(step), (200, expected));
}

/// The text of a link with its `%` escapes decoded.
fn decoded(link: &str) -> String {
    let mut out = Vec::new();
    let mut bytes = link.bytes();
    while let Some(b) = bytes.next() {
        if b == b'%' {
            let hex = [bytes.next().unwrap(), bytes.next().unwrap()];
            out.push(u8::from_str_radix(std::str::from_utf8(&hex).unwrap(), 16).unwrap());
        } else {
            out.push(b);
        }
    }
    String::from_utf8(out).unwrap()
}

#[test]
fn links_ask_for_what_is_listed() {
    let name = "b & \"ü\"'%.jpg";
    let entries = vec![entry(name, EntryKind::File)];
    let (_, page) = shown("my trip/1", "/srv/photos/my trip/1", entries, &[]);
    let start = page.find("<a href=\"/image/0/").unwrap() + "<a href=\"/image/0/".len();
    let link = &page[start..start + page[start..].find('"').unwrap()];
    let lookup = tis::serve::resolve_image_path(&app(), 0, &decoded(link)).unwrap();
    match lookup.start() {
        tis::serve::LookupStep::Canonicalize(p) => {
            assert_eq!(text(&p), format!("/srv/photos/my trip/1/{name}"));
        }
        _ => panic!(),
    }
}
