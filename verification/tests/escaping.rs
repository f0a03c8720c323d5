//! Escaping and the hash.

use tis::escape::{simple_hash, url_encode, HtmlEsc, JsEsc, UrlEnc};

fn html(s: &str) -> String {
    let mut out = String::new();
    HtmlEsc(s).fmt(&mut out);
    out
}

fn js(s: &str) -> String {
    let mut out = String::new();
    JsEsc(s).fmt(&mut out);
    out
}

fn url_decode(s: &str) -> Vec<u8> {
    let b = s.as_bytes();
    let mut out = Vec::new();
    let mut i = 0;
    while i < b.len() {
        if b[i] == b'%' {
            out.push(u8::from_str_radix(&s[i + 1..i + 3], 16).unwrap());
            i += 3;
        } else {
            out.push(b[i]);
            i += 1;
        }
    }
    out
}

#[test]
fn html_escapes_the_four_characters() {
    assert_eq!(html("a&b<c>d\"e'f"), "a&amp;b&lt;c&gt;d&quot;e'f");
    assert_eq!(html(""), "");
    assert_eq!(html("&amp;"), "&amp;amp;");
    assert_eq!(html("für €"), "für €");
}

#[test]
fn html_appends() {
    let mut out = String::from("x");
    HtmlEsc("<").fmt(&mut out);
    assert_eq!(out, "x&lt;");
}

#[test]
fn html_unescapes_to_the_text() {
    for s in ["", "&lt;", "<a href=\"x\">&</a>", "&amp;quot;", "plain"] {
        let back = html(s)
            .replace("&lt;", "<")
            .replace("&gt;", ">")
            .replace("&quot;", "\"")
            .replace("&amp;", "&");
        assert_eq!(back, s);
        assert!(!html(s).contains('<') && !html(s).contains('>') && !html(s).contains('"'));
    }
}

#[test]
fn url_keeps_plain_bytes_and_slash() {
    let plain = "ABCXYZabcxyz0189-_.~/";
    assert_eq!(url_encode(plain), plain);
}

#[test]
fn url_escapes_other_bytes() {
    assert_eq!(url_encode("a b"), "a%20b");
    assert_eq!(url_encode("ü"), "%C3%BC");
    assert_eq!(url_encode("100%"), "100%25");
    assert_eq!(url_encode("a?b#c&d'e\"f"), "a%3Fb%23c%26d%27e%22f");
    assert_eq!(url_encode("\u{1F4C1}"), "%F0%9F%93%81");
    assert_eq!(url_encode("\n\u{7f}"), "%0A%7F");
    assert_eq!(url_encode(""), "");
}

#[test]
fn url_formatter_appends() {
    let mut out = String::from("/browse/");
    UrlEnc("a b/c").fmt(&mut out);
    assert_eq!(out, "/browse/a%20b/c");
}

#[test]
fn url_decodes_to_the_text() {
    for s in ["", "a b/c d", "100%", "日本/写真.jpg", "%41"] {
        assert_eq!(url_decode(&url_encode(s)), s.as_bytes());
    }
}

#[test]
fn url_joins_at_slashes() {
    assert_eq!(
        url_encode("my dir/ü.jpg"),
        format!("{}/{}", url_encode("my dir"), url_encode("ü.jpg"))
    );
}

#[test]
fn escaped_links_need_no_more_escaping() {
    let link = url_encode("it's a \"test\" <&> \\ \n");
    assert_eq!(html(&link), link);
    assert_eq!(js(&link), link);
}

#[test]
fn js_escapes_backslash_quote_and_newline() {
    assert_eq!(js("a\\b'c\nd"), "a\\\\b\\'c\\nd");
    assert_eq!(js("\"ü\r\t"), "\"ü\r\t");
    assert_eq!(js(""), "");
}

#[test]
fn hash_of_known_texts() {
    assert_eq!(simple_hash(""), 5381);
    assert_eq!(simple_hash("a"), 5381 * 33 + 97);
    assert_eq!(simple_hash("ab"), (5381 * 33 + 97) * 33 + 98);
}

#[test]
fn hash_wraps() {
    let s = "/home/pi/photos/a-rather-long-name-for-a-picture.jpg";
    let mut expected: u64 = 5381;
    for b in s.bytes() {
        expected = expected.wrapping_mul(33).wrapping_add(b as u64);
    }
    assert_eq!(simple_hash(s), expected);
}
