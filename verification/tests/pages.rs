//! The start page, the error pages and the frame of all pages.

use tis::html::{error_page, index, page, CSS, FOLDER_ICON, JS};
use tis::path::{CanonicalPath, FilePath};
use tis::reply::{Reply, ReplyBody};
use tis::state::{AppState, Config, DirConfig, DownloadState, ServerConfig};

fn html_of(reply: Reply) -> String {
    match reply.body {
        ReplyBody::Html(page) => page,
        _ => panic!("not a page"),
    }
}

fn framed(title: &str, body: &str) -> String {
    format!(
        r#"<!DOCTYPE html>
<html lang="en">
<head>
<meta charset="utf-8">
<meta name="viewport" content="width=device-width,initial-scale=1">
<title>{title}</title>
<style>{CSS}</style>
</head>
<body>
{body}
</body>
</html>"#,
    )
}

fn app(names: &[(&str, Option<&str>)]) -> AppState {
    let config = Config {
        server: ServerConfig {
            bind: "127.0.0.1:80".to_string(),
            tls_cert: None,
            tls_key: None,
            cache_dir: FilePath::new("/cache"),
            state_file: FilePath::new("/state"),
            thumb_size: 300,
        },
        directories: names
            .iter()
            .map(|(n, _)| DirConfig { name: n.to_string(), path: FilePath::new("/x") })
            .collect(),
    };
    let dirs = names
        .iter()
        .map(|(_, p)| p.map(|p| CanonicalPath::parse(&FilePath::new(p)).unwrap()))
        .collect();
    AppState::new(config, DownloadState::default(), dirs)
}

#[test]
fn page_frames_title_and_body() {
    assert_eq!(page("T", "<p>B</p>"), framed("T", "<p>B</p>"));
}

#[test]
fn style_and_script() {
    assert!(CSS.starts_with("\n*,*::before,*::after{box-sizing:border-box}\n"));
    assert!(CSS.ends_with(".empty{margin:24px 16px;color:#999}\n"));
    assert!(JS.starts_with("\nasync function toggleMark(dirIdx, path, btn) {\n"));
    assert!(JS.contains("fetch('/mark/' + dirIdx + '/' + path, {method: 'POST'})"));
    assert_eq!(FOLDER_ICON, "<span class=\"folder-icon\">&#128193;</span>");
}

#[test]
fn error_page_names_status_and_message() {
    let reply = error_page(404, "Path <x> not found");
    assert_eq!(reply.status, 404);
    assert!(reply.headers.is_empty());
    assert_eq!(
        html_of(reply),
        framed(
            "tis - error",
            "<h1>Error 404</h1><p>Path &lt;x&gt; not found</p><a href=\"/\">Back to home</a>"
        )
    );
}

#[test]
fn index_without_directories() {
    let reply = index(&app(&[]));
    assert_eq!(reply.status, 200);
    assert_eq!(
        html_of(reply),
        framed("tis - directories", "<h1>Directories</h1><div class=\"dir-list\"></div>")
    );
}

#[test]
fn index_links_directories_and_disables_missing_ones() {
    let reply = index(&app(&[("Photos & more", Some("/p")), ("Camera", None)]));
    let expected = [
        "<h1>Directories</h1><div class=\"dir-list\">",
        "<a class=\"dir-link\" href=\"/browse/0\">",
        FOLDER_ICON,
        " Photos &amp; more</a>",
        "<a class=\"dir-link disabled\" href=\"/browse/1\">",
        FOLDER_ICON,
        " Camera</a></div>",
    ]
    .concat();
    assert_eq!(html_of(reply), framed("tis - directories", &expected));
}

#[test]
fn index_numbers_directories() {
    let names: Vec<(String, Option<&str>)> = (0..12).map(|i| (format!("d{i}"), Some("/p"))).collect();
    let refs: Vec<(&str, Option<&str>)> = names.iter().map(|(n, p)| (n.as_str(), *p)).collect();
    let text = html_of(index(&app(&refs)));
    for i in 0..12 {
        assert!(text.contains(&format!("href=\"/browse/{i}\">{FOLDER_ICON} d{i}</a>")));
    }
}
