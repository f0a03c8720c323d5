//! Which files are images, and the media types they are served with.

use vstd::prelude::*;
use vstd::utf8::*;

use crate::path;
use crate::path::{FilePath, DOT};
use crate::text;

verus! {

/// The file-name endings of the image files that are listed.
pub open spec fn is_image_ending(s: Seq<char>) -> bool {
    ||| s == "jpg"@
    ||| s == "jpeg"@
    ||| s == "png"@
    ||| s == "gif"@
    ||| s == "webp"@
    ||| s == "bmp"@
    ||| s == "tiff"@
    ||| s == "tif"@
}

/// Whether a file name is that of an image: what follows its last `.`, or all
/// of it if there is none, is an image ending in any letter case.
pub open spec fn is_image_name(name: Seq<char>) -> bool {
    is_image_ending(text::after_last(text::lower_text(name), '.'))
}

/// Whether a file name is that of an image.
pub fn is_image(name: &str) -> (r: bool)
    ensures
        r == is_image_name(name@),
{
    let chars = text::chars_of(name);
    let mut start: usize = chars.len();
    let ghost low = text::lower_text(name@);
    let n: usize = chars.len();
    while start > 0 && chars[start - 1] != '.'
        invariant
            start <= n,
            n == chars@.len(),
            chars@ == name@,
            low == text::lower_text(name@),
            forall|k: int| start <= k < n ==> low[k] != '.',
        decreases start,
    {
        start -= 1;
    }
    proof {
        text::last_at_is_unique(low, '.', start - 1);
    }
    let mut ending: String = String::new();
    for i in start..n
        invariant
            start <= n,
            n == chars@.len(),
            chars@ == name@,
            low == text::lower_text(name@),
            ending@ == low.subrange(start as int, i as int),
    {
        ending.push(text::char_lower(chars[i]));
        assert(ending@ =~= low.subrange(start as int, i + 1));
    }
    assert(ending@ =~= text::after_last(low, '.'));
    let e = ending.as_str();
    text::same_text(e, "jpg") || text::same_text(e, "jpeg") || text::same_text(e, "png")
        || text::same_text(e, "gif") || text::same_text(e, "webp") || text::same_text(e, "bmp")
        || text::same_text(e, "tiff") || text::same_text(e, "tif")
}

/// The media type for a file-name extension, given in lower case.
pub open spec fn mime_of_extension(ext: Seq<u8>) -> Seq<char> {
    if ext == encode_utf8("jpg"@) || ext == encode_utf8("jpeg"@) {
        "image/jpeg"@
    } else if ext == encode_utf8("png"@) {
        "image/png"@
    } else if ext == encode_utf8("gif"@) {
        "image/gif"@
    } else if ext == encode_utf8("webp"@) {
        "image/webp"@
    } else if ext == encode_utf8("bmp"@) {
        "image/bmp"@
    } else if ext == encode_utf8("tiff"@) || ext == encode_utf8("tif"@) {
        "image/tiff"@
    } else {
        "application/octet-stream"@
    }
}

/// The media type for the file at a path: by its extension in any letter case.
pub open spec fn mime_of_path(p: Seq<u8>) -> Seq<char> {
    match path::extension_of(p) {
        Some(ext) => mime_of_extension(text::lower_bytes(ext)),
        None => "application/octet-stream"@,
    }
}

/// The media type for the file at a path.
pub fn mime_for_path(path: &FilePath) -> (r: &'static str)
    ensures
        r@ == mime_of_path(path@),
{
    let ext = match path.extension() {
        Some(e) => text::ascii_lower_bytes(e.as_slice()),
        None => {
            return "application/octet-stream";
        },
    };
    let e = ext.as_slice();
    if text::same_bytes(e, "jpg".as_bytes()) || text::same_bytes(e, "jpeg".as_bytes()) {
        "image/jpeg"
    } else if text::same_bytes(e, "png".as_bytes()) {
        "image/png"
    } else if text::same_bytes(e, "gif".as_bytes()) {
        "image/gif"
    } else if text::same_bytes(e, "webp".as_bytes()) {
        "image/webp"
    } else if text::same_bytes(e, "bmp".as_bytes()) {
        "image/bmp"
    } else if text::same_bytes(e, "tiff".as_bytes()) || text::same_bytes(e, "tif".as_bytes()) {
        "image/tiff"
    } else {
        "application/octet-stream"
    }
}

// --- Laws ---

/// Every image ending is a run of lower-case ASCII letters, and its media type
/// is one of images.
proof fn image_endings(e: Seq<char>)
    requires
        is_image_ending(e),
    ensures
        e.len() > 0,
        forall|i: int| 0 <= i < e.len() ==> 'a' <= #[trigger] e[i] <= 'z',
        mime_of_extension(encode_utf8(e)).take(6) == "image/"@,
{
    reveal_strlit("jpg");
    reveal_strlit("jpeg");
    reveal_strlit("png");
    reveal_strlit("gif");
    reveal_strlit("webp");
    reveal_strlit("bmp");
    reveal_strlit("tiff");
    reveal_strlit("tif");
    reveal_strlit("image/");
    reveal_strlit("image/jpeg");
    reveal_strlit("image/png");
    reveal_strlit("image/gif");
    reveal_strlit("image/webp");
    reveal_strlit("image/bmp");
    reveal_strlit("image/tiff");
    assert("image/jpeg"@.take(6) =~= "image/"@);
    assert("image/png"@.take(6) =~= "image/"@);
    assert("image/gif"@.take(6) =~= "image/"@);
    assert("image/webp"@.take(6) =~= "image/"@);
    assert("image/bmp"@.take(6) =~= "image/"@);
    assert("image/tiff"@.take(6) =~= "image/"@);
}

/// A text that is an image ending but for letter case encodes, in lower case,
/// to that ending.
proof fn ending_bytes(ext: Seq<char>)
    requires
        is_image_ending(text::lower_text(ext)),
    ensures
        text::lower_bytes(encode_utf8(ext)) == encode_utf8(text::lower_text(ext)),
        encode_utf8(ext).len() == ext.len(),
        forall|i: int|
            0 <= i < ext.len() ==> {
                let b = #[trigger] encode_utf8(ext)[i];
                b != path::SLASH && b != DOT
            },
{
    let low = text::lower_text(ext);
    image_endings(low);
    assert forall|i: int| 0 <= i < ext.len() implies 0 <= #[trigger] ext[i] <= 127 by {
        assert('a' <= low[i] <= 'z');
    }
    is_ascii_chars_encode_utf8(ext);
    is_ascii_chars_encode_utf8(low);
    assert forall|i: int| 0 <= i < ext.len() implies text::lower_byte(
        #[trigger] encode_utf8(ext)[i],
    ) == encode_utf8(low)[i] && encode_utf8(ext)[i] != path::SLASH && encode_utf8(ext)[i]
        != DOT by {
        assert('a' <= low[i] <= 'z');
        assert(encode_utf8(ext)[i] == ext[i] as u8);
        assert(encode_utf8(low)[i] == low[i] as u8);
    }
    assert(text::lower_bytes(encode_utf8(ext)) =~= encode_utf8(low));
}

/// An image that is listed is served as an image: where a name has an image
/// ending after a `.` that is not its first character, the file of that name in
/// any directory has a media type that starts with `image/`.
pub proof fn listed_images_are_served_as_images(dir: Seq<u8>, name: Seq<char>)
    requires
        is_image_name(name),
        !name.contains('/'),
        text::last_at(name, '.') > 0,
    ensures
        mime_of_path(path::joined(dir, encode_utf8(name))).take(6) == "image/"@,
{
    let low = text::lower_text(name);
    let d = text::last_at(name, '.');
    text::last_at_is_last(name, '.');
    assert(text::last_at(low, '.') == d) by {
        assert forall|i: int| d < i < low.len() implies low[i] != '.' by {
            assert(name[i] != '.');
        }
        text::last_at_is_unique(low, '.', d);
    }
    let before = name.take(d);
    let ext = name.skip(d + 1);
    assert(text::after_last(low, '.') =~= text::lower_text(ext));
    ending_bytes(ext);
    image_endings(text::lower_text(ext));

    let b = encode_utf8(name);
    let bb = encode_utf8(before);
    let be = encode_utf8(ext);
    assert(name =~= (before + seq!['.']) + ext);
    text::encoding_of_concatenation(before + seq!['.'], ext);
    text::encoding_of_concatenation(before, seq!['.']);
    is_ascii_chars_encode_utf8(seq!['.']);
    assert(encode_utf8(seq!['.']) =~= seq![DOT]);
    assert(b =~= bb + seq![DOT] + be);
    assert(bb.len() > 0) by {
        if bb.len() == 0 {
            encode_utf8_decode_utf8(before);
            encode_utf8_decode_utf8(Seq::empty());
            assert(bb =~= encode_utf8(Seq::empty()));
        }
    }
    assert forall|i: int| 0 <= i < b.len() implies b[i] != path::SLASH by {
        if b[i] == path::SLASH {
            text::encoding_keeps_ascii(name, i);
        }
    }
    assert(text::last_at(b, DOT) == bb.len()) by {
        assert forall|i: int| bb.len() < i < b.len() implies b[i] != DOT by {
            assert(b[i] == be[i - bb.len() - 1]);
        }
        text::last_at_is_unique(b, DOT, bb.len() as int);
    }
    assert(text::after_last(b, DOT) =~= be);

    let p = path::joined(dir, b);
    let cut = p.len() - b.len();
    assert(p.skip(cut) =~= b);
    assert(p.last() == be.last());
    assert(be.last() == encode_utf8(ext)[ext.len() - 1]);
    assert(path::trim_end(p) == p);
    assert(text::last_at(p, path::SLASH) == cut - 1) by {
        assert forall|i: int| cut - 1 < i < p.len() implies p[i] != path::SLASH by {
            assert(p[i] == b[i - cut]);
        }
        text::last_at_is_unique(p, path::SLASH, cut - 1);
    }
    assert(text::after_last(p, path::SLASH) =~= b);
    assert(b.last() != DOT);
}

/// An extension with a media type of images is an image ending.
proof fn ending_of_extension(ext: Seq<u8>) -> (e: Seq<char>)
    requires
        mime_of_extension(ext).take(6) == "image/"@,
    ensures
        is_image_ending(e),
        ext == encode_utf8(e),
{
    reveal_strlit("image/");
    reveal_strlit("application/octet-stream");
    assert("application/octet-stream"@.take(6)[0] == 'a');
    assert("image/"@[0] == 'i');
    if ext == encode_utf8("jpg"@) {
        "jpg"@
    } else if ext == encode_utf8("jpeg"@) {
        "jpeg"@
    } else if ext == encode_utf8("png"@) {
        "png"@
    } else if ext == encode_utf8("gif"@) {
        "gif"@
    } else if ext == encode_utf8("webp"@) {
        "webp"@
    } else if ext == encode_utf8("bmp"@) {
        "bmp"@
    } else if ext == encode_utf8("tiff"@) {
        "tiff"@
    } else {
        "tif"@
    }
}

/// A text whose bytes are, in lower case, those of an image ending is that ending
/// but for letter case.
proof fn ending_text(ext: Seq<char>, e: Seq<char>)
    requires
        is_image_ending(e),
        text::lower_bytes(encode_utf8(ext)) == encode_utf8(e),
    ensures
        text::lower_text(ext) == e,
{
    let b = encode_utf8(ext);
    image_endings(e);
    is_ascii_chars_encode_utf8(e);
    assert forall|i: int| 0 <= i < b.len() implies #[trigger] b[i] < 0x80 && text::lower_byte(b[i])
        == e[i] as u8 by {
        assert(text::lower_bytes(b)[i] == text::lower_byte(b[i]));
        assert(encode_utf8(e)[i] == e[i] as u8);
        assert('a' <= e[i] <= 'z');
    }
    let r = Seq::new(b.len(), |i: int| b[i] as char);
    assert forall|i: int| 0 <= i < r.len() implies 0 <= #[trigger] r[i] <= 127 by {
        assert(b[i] < 0x80);
    }
    is_ascii_chars_encode_utf8(r);
    assert(encode_utf8(r) =~= b) by {
        assert forall|i: int| 0 <= i < b.len() implies encode_utf8(r)[i] == b[i] by {
            assert(b[i] < 0x80);
            assert(encode_utf8(r)[i] == r[i] as u8);
        }
    }
    text::encoding_is_injective(r, ext);
    assert forall|i: int| 0 <= i < e.len() implies text::lower_text(ext)[i] == e[i] by {
        assert(b[i] < 0x80);
        assert('a' <= e[i] <= 'z');
    }
    assert(text::lower_text(ext) =~= e);
}

/// What is served as an image is listed as one: where the file of a name has a
/// media type that starts with `image/`, the name is that of an image.
pub proof fn served_images_are_listed(dir: Seq<u8>, name: Seq<char>)
    requires
        path::is_name(encode_utf8(name)),
        mime_of_path(path::joined(dir, encode_utf8(name))).take(6) == "image/"@,
    ensures
        is_image_name(name),
{
    let b = encode_utf8(name);
    let p = path::joined(dir, b);
    let cut = p.len() - b.len();
    assert(b.contains(b[0]));
    assert(b.contains(b[b.len() - 1]));
    assert(p.skip(cut) =~= b);
    assert(path::trim_end(p) == p) by {
        assert(p.last() == b.last());
        if b.len() == 1 {
            assert(b =~= seq![b[0]]);
        } else {
            assert(b.contains(b[b.len() - 2]));
            assert(p[p.len() - 2] == b[b.len() - 2]);
        }
    }
    assert(text::last_at(p, path::SLASH) == cut - 1) by {
        assert forall|i: int| cut - 1 < i < p.len() implies p[i] != path::SLASH by {
            assert(p[i] == b[i - cut]);
            assert(b.contains(b[i - cut]));
        }
        text::last_at_is_unique(p, path::SLASH, cut - 1);
    }
    assert(text::after_last(p, path::SLASH) =~= b);
    assert(path::file_name_of(p) == Some(b));
    assert(path::extension_of(p) is Some) by {
        reveal_strlit("image/");
        reveal_strlit("application/octet-stream");
        assert("application/octet-stream"@.take(6)[0] == 'a');
        assert("image/"@[0] == 'i');
    }
    let e = ending_of_extension(text::lower_bytes(path::extension_of(p)->0));

    let n = text::last_at(name, '.');
    let before = name.take(n);
    let rest = name.skip(n + 1);
    text::last_at_is_last(name, '.');
    text::last_at_is_last(b, DOT);
    text::encoding_keeps_ascii(name, text::last_at(b, DOT));
    assert(n >= 0);
    assert(name =~= (before + seq!['.']) + rest);
    text::encoding_of_concatenation(before + seq!['.'], rest);
    text::encoding_of_concatenation(before, seq!['.']);
    is_ascii_chars_encode_utf8(seq!['.']);
    assert(encode_utf8(seq!['.']) =~= seq![DOT]);
    let bb = encode_utf8(before);
    let be = encode_utf8(rest);
    assert(b =~= bb + seq![DOT] + be);
    assert(text::last_at(b, DOT) == bb.len()) by {
        assert forall|i: int| bb.len() < i < b.len() implies b[i] != DOT by {
            assert(b[i] == be[i - bb.len() - 1]);
            if b[i] == DOT {
                text::encoding_keeps_ascii(rest, i - bb.len() - 1);
                let k = choose|k: int| 0 <= k < rest.len() && rest[k] == '.';
                assert(name[n + 1 + k] == '.');
            }
        }
        text::last_at_is_unique(b, DOT, bb.len() as int);
    }
    assert(text::after_last(b, DOT) =~= be);
    ending_text(rest, e);
    let low = text::lower_text(name);
    assert(text::last_at(low, '.') == n) by {
        assert forall|i: int| n < i < low.len() implies low[i] != '.' by {
            assert(name[i] != '.');
        }
        text::last_at_is_unique(low, '.', n);
    }
    assert(text::after_last(low, '.') =~= text::lower_text(rest));
}

/// Whether a name is `ending`, or ends in a `.` and `ending`, but for the case of
/// ASCII letters.
pub open spec fn has_ending(name: Seq<char>, ending: Seq<char>) -> bool {
    let at = name.len() - ending.len();
    &&& at >= 0
    &&& at > 0 ==> name[at - 1] == '.'
    &&& forall|i: int|
        0 <= i < ending.len() ==> {
            ||| #[trigger] name[at + i] == ending[i]
            ||| 'A' <= name[at + i] <= 'Z' && name[at + i] as int + 32 == ending[i] as int
        }
}

/// What follows the last `.` of a name in lower case is a given ending of small
/// letters just where the name has that ending.
proof fn ending_after_dot(name: Seq<char>, e: Seq<char>)
    requires
        forall|i: int| 0 <= i < e.len() ==> 'a' <= #[trigger] e[i] <= 'z',
    ensures
        text::after_last(text::lower_text(name), '.') == e <==> has_ending(name, e),
{
    let low = text::lower_text(name);
    let n = text::last_at(low, '.');
    let at = name.len() - e.len();
    text::last_at_is_last(low, '.');
    if text::after_last(low, '.') == e {
        assert(at == n + 1);
        assert forall|i: int| 0 <= i < e.len() implies {
            ||| #[trigger] name[at + i] == e[i]
            ||| 'A' <= name[at + i] <= 'Z' && name[at + i] as int + 32 == e[i] as int
        } by {
            assert(text::after_last(low, '.')[i] == low[at + i]);
        }
    }
    if has_ending(name, e) {
        assert forall|i: int| at <= i < low.len() implies low[i] == e[i - at] by {
            assert(name[at + (i - at)] == name[i]);
        }
        assert forall|i: int| at - 1 < i < low.len() implies low[i] != '.' by {
            assert('a' <= e[i - at] <= 'z');
        }
        text::last_at_is_unique(low, '.', at - 1);
        assert(text::after_last(low, '.') =~= e);
    }
}

/// A name is that of an image just where it has one of eight endings, in any letter
/// case: behind a `.`, or all by itself.
pub proof fn image_names_by_their_endings(name: Seq<char>)
    ensures
        is_image_name(name) <==> {
            ||| has_ending(name, "jpg"@)
            ||| has_ending(name, "jpeg"@)
            ||| has_ending(name, "png"@)
            ||| has_ending(name, "gif"@)
            ||| has_ending(name, "webp"@)
            ||| has_ending(name, "bmp"@)
            ||| has_ending(name, "tiff"@)
            ||| has_ending(name, "tif"@)
        },
{
    image_endings("jpg"@);
    image_endings("jpeg"@);
    image_endings("png"@);
    image_endings("gif"@);
    image_endings("webp"@);
    image_endings("bmp"@);
    image_endings("tiff"@);
    image_endings("tif"@);
    ending_after_dot(name, "jpg"@);
    ending_after_dot(name, "jpeg"@);
    ending_after_dot(name, "png"@);
    ending_after_dot(name, "gif"@);
    ending_after_dot(name, "webp"@);
    ending_after_dot(name, "bmp"@);
    ending_after_dot(name, "tiff"@);
    ending_after_dot(name, "tif"@);
}

/// The media type of an image file is `image/` and its extension; `jpg` goes for
/// `jpeg` and `tif` for `tiff`. An extension in capital letters is as good as one in
/// small ones, and a file with any other extension or none has no type of its own.
pub proof fn media_types_follow_extensions(p: Seq<u8>, q: Seq<u8>, ext: Seq<char>)
    ensures
        path::extension_of(p) is Some && path::extension_of(q) is Some && text::lower_bytes(
            path::extension_of(p)->0,
        ) == text::lower_bytes(path::extension_of(q)->0) ==> mime_of_path(p) == mime_of_path(q),
        path::extension_of(p) == Some(encode_utf8(ext)) && (ext == "jpeg"@ || ext == "png"@ || ext
            == "gif"@ || ext == "webp"@ || ext == "bmp"@ || ext == "tiff"@) ==> mime_of_path(p)
            == "image/"@ + ext,
        path::extension_of(p) == Some(encode_utf8("jpg"@)) ==> mime_of_path(p) == "image/jpeg"@,
        path::extension_of(p) == Some(encode_utf8("tif"@)) ==> mime_of_path(p) == "image/tiff"@,
        path::extension_of(p) is None ==> mime_of_path(p) == "application/octet-stream"@,
        mime_of_path(p) != "application/octet-stream"@ ==> {
            let low = text::lower_bytes(path::extension_of(p)->0);
            ||| low == encode_utf8("jpg"@)
            ||| low == encode_utf8("jpeg"@)
            ||| low == encode_utf8("png"@)
            ||| low == encode_utf8("gif"@)
            ||| low == encode_utf8("webp"@)
            ||| low == encode_utf8("bmp"@)
            ||| low == encode_utf8("tiff"@)
            ||| low == encode_utf8("tif"@)
        },
        path::extension_of(p) == Some(encode_utf8(ext)) && !has_ending(ext, "jpg"@) && !has_ending(
            ext,
            "jpeg"@,
        ) && !has_ending(ext, "png"@) && !has_ending(ext, "gif"@) && !has_ending(ext, "webp"@)
            && !has_ending(ext, "bmp"@) && !has_ending(ext, "tiff"@) && !has_ending(ext, "tif"@)
            ==> mime_of_path(p) == "application/octet-stream"@,
{
    literal_extensions();
    if path::extension_of(p) == Some(encode_utf8(ext)) {
        if is_image_ending(ext) {
            lower_case_ending(ext);
        }
        let low = text::lower_bytes(encode_utf8(ext));
        if mime_of_extension(low) != "application/octet-stream"@ {
            let e = ending_of_bytes(low);
            ending_text(ext, e);
            image_endings(e);
            assert forall|i: int| 0 <= i < e.len() implies {
                ||| #[trigger] ext[i] == e[i]
                ||| 'A' <= ext[i] <= 'Z' && ext[i] as int + 32 == e[i] as int
            } by {
                assert(text::lower_text(ext)[i] == e[i]);
            }
            assert forall|i: int| 0 <= i < e.len() implies {
                ||| #[trigger] ext[0 + i] == e[i]
                ||| 'A' <= ext[0 + i] <= 'Z' && ext[0 + i] as int + 32 == e[i] as int
            } by {
                assert(ext[i] == ext[0 + i]);
            }
            assert(has_ending(ext, e));
        }
    }
}

/// The image ending that an extension with a media type of its own is.
proof fn ending_of_bytes(ext: Seq<u8>) -> (e: Seq<char>)
    requires
        mime_of_extension(ext) != "application/octet-stream"@,
    ensures
        is_image_ending(e),
        ext == encode_utf8(e),
{
    if ext == encode_utf8("jpg"@) {
        "jpg"@
    } else if ext == encode_utf8("jpeg"@) {
        "jpeg"@
    } else if ext == encode_utf8("png"@) {
        "png"@
    } else if ext == encode_utf8("gif"@) {
        "gif"@
    } else if ext == encode_utf8("webp"@) {
        "webp"@
    } else if ext == encode_utf8("bmp"@) {
        "bmp"@
    } else if ext == encode_utf8("tiff"@) {
        "tiff"@
    } else {
        "tif"@
    }
}

/// The bytes of an image ending are in lower case already.
proof fn lower_case_ending(e: Seq<char>)
    requires
        is_image_ending(e),
    ensures
        text::lower_bytes(encode_utf8(e)) == encode_utf8(e),
{
    image_endings(e);
    is_ascii_chars_encode_utf8(e);
    assert forall|i: int| 0 <= i < encode_utf8(e).len() implies text::lower_byte(
        #[trigger] encode_utf8(e)[i],
    ) == encode_utf8(e)[i] by {
        assert(encode_utf8(e)[i] == e[i] as u8);
        assert('a' <= e[i] <= 'z');
    }
    assert(text::lower_bytes(encode_utf8(e)) =~= encode_utf8(e));
}

/// The media types of the image endings, written out.
proof fn literal_extensions()
    ensures
        mime_of_extension(encode_utf8("jpg"@)) == "image/"@ + "jpeg"@,
        mime_of_extension(encode_utf8("jpeg"@)) == "image/"@ + "jpeg"@,
        mime_of_extension(encode_utf8("png"@)) == "image/"@ + "png"@,
        mime_of_extension(encode_utf8("gif"@)) == "image/"@ + "gif"@,
        mime_of_extension(encode_utf8("webp"@)) == "image/"@ + "webp"@,
        mime_of_extension(encode_utf8("bmp"@)) == "image/"@ + "bmp"@,
        mime_of_extension(encode_utf8("tiff"@)) == "image/"@ + "tiff"@,
        mime_of_extension(encode_utf8("tif"@)) == "image/"@ + "tiff"@,
        text::lower_bytes(encode_utf8("jpg"@)) == encode_utf8("jpg"@),
        text::lower_bytes(encode_utf8("tif"@)) == encode_utf8("tif"@),
        "image/jpeg"@ == "image/"@ + "jpeg"@,
        "image/tiff"@ == "image/"@ + "tiff"@,
{
    lower_case_ending("jpg"@);
    lower_case_ending("tif"@);
    reveal_strlit("jpg");
    reveal_strlit("jpeg");
    reveal_strlit("png");
    reveal_strlit("gif");
    reveal_strlit("webp");
    reveal_strlit("bmp");
    reveal_strlit("tiff");
    reveal_strlit("tif");
    reveal_strlit("image/");
    reveal_strlit("image/jpeg");
    reveal_strlit("image/png");
    reveal_strlit("image/gif");
    reveal_strlit("image/webp");
    reveal_strlit("image/bmp");
    reveal_strlit("image/tiff");
    assert("image/jpeg"@ =~= "image/"@ + "jpeg"@);
    assert("image/png"@ =~= "image/"@ + "png"@);
    assert("image/gif"@ =~= "image/"@ + "gif"@);
    assert("image/webp"@ =~= "image/"@ + "webp"@);
    assert("image/bmp"@ =~= "image/"@ + "bmp"@);
    assert("image/tiff"@ =~= "image/"@ + "tiff"@);
    different_endings();
}

/// The image endings have different bytes.
proof fn different_endings()
    ensures
        encode_utf8("gif"@) != encode_utf8("jpg"@),
        encode_utf8("gif"@) != encode_utf8("png"@),
        encode_utf8("png"@) != encode_utf8("jpg"@),
        encode_utf8("bmp"@) != encode_utf8("jpg"@),
        encode_utf8("bmp"@) != encode_utf8("png"@),
        encode_utf8("bmp"@) != encode_utf8("gif"@),
        encode_utf8("tif"@) != encode_utf8("jpg"@),
        encode_utf8("tif"@) != encode_utf8("png"@),
        encode_utf8("tif"@) != encode_utf8("gif"@),
        encode_utf8("tif"@) != encode_utf8("bmp"@),
        encode_utf8("webp"@) != encode_utf8("jpeg"@),
        encode_utf8("tiff"@) != encode_utf8("jpeg"@),
        encode_utf8("tiff"@) != encode_utf8("webp"@),
        encode_utf8("jpg"@).len() == 3,
        encode_utf8("png"@).len() == 3,
        encode_utf8("gif"@).len() == 3,
        encode_utf8("bmp"@).len() == 3,
        encode_utf8("tif"@).len() == 3,
        encode_utf8("jpeg"@).len() == 4,
        encode_utf8("webp"@).len() == 4,
        encode_utf8("tiff"@).len() == 4,
{
    reveal_strlit("jpg");
    reveal_strlit("jpeg");
    reveal_strlit("png");
    reveal_strlit("gif");
    reveal_strlit("webp");
    reveal_strlit("bmp");
    reveal_strlit("tiff");
    reveal_strlit("tif");
    is_ascii_chars_encode_utf8("jpg"@);
    is_ascii_chars_encode_utf8("jpeg"@);
    is_ascii_chars_encode_utf8("png"@);
    is_ascii_chars_encode_utf8("gif"@);
    is_ascii_chars_encode_utf8("webp"@);
    is_ascii_chars_encode_utf8("bmp"@);
    is_ascii_chars_encode_utf8("tiff"@);
    is_ascii_chars_encode_utf8("tif"@);
    assert(encode_utf8("jpg"@)[0] == 'j' as u8);
    assert(encode_utf8("jpeg"@)[0] == 'j' as u8);
    assert(encode_utf8("png"@)[0] == 'p' as u8);
    assert(encode_utf8("gif"@)[0] == 'g' as u8);
    assert(encode_utf8("webp"@)[0] == 'w' as u8);
    assert(encode_utf8("bmp"@)[0] == 'b' as u8);
    assert(encode_utf8("tiff"@)[0] == 't' as u8);
    assert(encode_utf8("tif"@)[0] == 't' as u8);
}

} // verus!
