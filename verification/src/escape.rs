//! Escaping for HTML, URLs and JavaScript strings, and the hash behind DOM ids.

use vstd::prelude::*;
use vstd::utf8::*;

use crate::text;

verus! {

// --- HTML ---

/// How one character is written in HTML text and attribute values.
pub open spec fn html_char(c: char) -> Seq<char> {
    if c == '&' {
        "&amp;"@
    } else if c == '<' {
        "&lt;"@
    } else if c == '>' {
        "&gt;"@
    } else if c == '"' {
        "&quot;"@
    } else {
        seq![c]
    }
}

/// `s` as it is written in HTML.
pub open spec fn html_escape(s: Seq<char>) -> Seq<char> {
    text::expand(s, |c: char| html_char(c))
}

/// A text to be written with HTML escaping.
pub struct HtmlEsc<'a>(pub &'a str);

impl<'a> HtmlEsc<'a> {
    /// Appends the escaped text to `f`.
    pub fn fmt(&self, f: &mut String)
        ensures
            final(f)@ == old(f)@ + html_escape(self.0@),
    {
        let ghost before = f@;
        let ghost s = self.0@;
        let ghost g = |c: char| html_char(c);
        assert(html_escape(s) == text::expand(s, g));
        assert(s.take(0) =~= Seq::<char>::empty());
        assert(before + text::expand(s.take(0), g) =~= before);
        for c in it: self.0.chars()
            invariant
                it.seq() == s,
                g == (|c: char| html_char(c)),
                f@ == before + text::expand(s.take(it.index() as int), g),
        {
            let ghost so_far = f@;
            if c == '&' {
                f.append("&amp;");
            } else if c == '<' {
                f.append("&lt;");
            } else if c == '>' {
                f.append("&gt;");
            } else if c == '"' {
                f.append("&quot;");
            } else {
                f.push(c);
            }
            proof {
                text::expand_next(s, it.index() as int, g);
                assert(f@ =~= so_far + g(c));
                assert(f@ =~= before + text::expand(s.take(it.index() as int + 1), g));
            }
        }
        assert(s.take(s.len() as int) =~= s);
    }
}

// --- URLs ---

/// The bytes that stand for themselves in a link: `/`, letters, digits, and
/// `-`, `_`, `.` and `~`.
pub open spec fn url_plain(b: u8) -> bool {
    ||| 0x41 <= b <= 0x5a
    ||| 0x61 <= b <= 0x7a
    ||| 0x30 <= b <= 0x39
    ||| b == 0x2f
    ||| b == 0x2d
    ||| b == 0x5f
    ||| b == 0x2e
    ||| b == 0x7e
}

/// The upper-case hexadecimal digit for `n`.
pub open spec fn hex_char(n: int) -> char {
    if n < 10 {
        (0x30 + n) as char
    } else {
        (0x41 + n - 10) as char
    }
}

/// How one byte is written in a link.
pub open spec fn url_byte(b: u8) -> Seq<char> {
    if url_plain(b) {
        seq![b as char]
    } else {
        seq!['%', hex_char(b as int / 16), hex_char(b as int % 16)]
    }
}

/// A byte string as it is written in a link.
pub open spec fn url_bytes(s: Seq<u8>) -> Seq<char> {
    text::expand(s, |b: u8| url_byte(b))
}

/// `s`, in UTF-8, as it is written in a link.
pub open spec fn url_escape(s: Seq<char>) -> Seq<char> {
    url_bytes(encode_utf8(s))
}

/// The upper-case hexadecimal digit for `n`.
fn hex_digit(n: u8) -> (r: char)
    requires
        n < 16,
    ensures
        r == hex_char(n as int),
{
    if n < 10 {
        (0x30 + n) as char
    } else {
        (0x41 + (n - 10)) as char
    }
}

/// A text to be written with URL escaping, in which `/` stands for itself.
pub struct UrlEnc<'a>(pub &'a str);

impl<'a> UrlEnc<'a> {
    /// Appends the escaped text to `f`.
    pub fn fmt(&self, f: &mut String)
        ensures
            final(f)@ == old(f)@ + url_escape(self.0@),
    {
        let bytes = self.0.as_bytes();
        let ghost before = f@;
        let ghost s = bytes@;
        let ghost g = |b: u8| url_byte(b);
        assert(url_escape(self.0@) == text::expand(s, g));
        assert(s.take(0) =~= Seq::<u8>::empty());
        assert(before + text::expand(s.take(0), g) =~= before);
        for i in 0..bytes.len()
            invariant
                s == bytes@,
                g == (|b: u8| url_byte(b)),
                f@ == before + text::expand(s.take(i as int), g),
        {
            let b: u8 = bytes[i];
            let ghost so_far = f@;
            if b == 0x2f || (0x41 <= b && b <= 0x5a) || (0x61 <= b && b <= 0x7a) || (0x30 <= b && b
                <= 0x39) || b == 0x2d || b == 0x5f || b == 0x2e || b == 0x7e {
                f.push(b as char);
            } else {
                f.push('%');
                f.push(hex_digit(b / 16));
                f.push(hex_digit(b % 16));
            }
            proof {
                text::expand_next(s, i as int, g);
                assert(f@ =~= so_far + g(b));
                assert(f@ =~= before + text::expand(s.take(i + 1), g));
            }
        }
        assert(s.take(s.len() as int) =~= s);
    }
}

/// `s` as it is written in a link.
pub fn url_encode(s: &str) -> (r: String)
    ensures
        r@ == url_escape(s@),
{
    let mut out: String = String::new();
    UrlEnc(s).fmt(&mut out);
    assert(out@ =~= url_escape(s@));
    out
}

// --- JavaScript strings ---

/// How one character is written in a single-quoted JavaScript string.
pub open spec fn js_char(c: char) -> Seq<char> {
    if c == '\\' {
        "\\\\"@
    } else if c == '\'' {
        "\\'"@
    } else if c == '\n' {
        "\\n"@
    } else {
        seq![c]
    }
}

/// `s` as it is written in a single-quoted JavaScript string.
pub open spec fn js_escape(s: Seq<char>) -> Seq<char> {
    text::expand(s, |c: char| js_char(c))
}

/// A text to be written with JavaScript string escaping.
pub struct JsEsc<'a>(pub &'a str);

impl<'a> JsEsc<'a> {
    /// Appends the escaped text to `f`.
    pub fn fmt(&self, f: &mut String)
        ensures
            final(f)@ == old(f)@ + js_escape(self.0@),
    {
        let ghost before = f@;
        let ghost s = self.0@;
        let ghost g = |c: char| js_char(c);
        assert(js_escape(s) == text::expand(s, g));
        assert(s.take(0) =~= Seq::<char>::empty());
        assert(before + text::expand(s.take(0), g) =~= before);
        for c in it: self.0.chars()
            invariant
                it.seq() == s,
                g == (|c: char| js_char(c)),
                f@ == before + text::expand(s.take(it.index() as int), g),
        {
            let ghost so_far = f@;
            if c == '\\' {
                f.append("\\\\");
            } else if c == '\'' {
                f.append("\\'");
            } else if c == '\n' {
                f.append("\\n");
            } else {
                f.push(c);
            }
            proof {
                text::expand_next(s, it.index() as int, g);
                assert(f@ =~= so_far + g(c));
                assert(f@ =~= before + text::expand(s.take(it.index() as int + 1), g));
            }
        }
        assert(s.take(s.len() as int) =~= s);
    }
}

// --- DOM ids ---

/// The hash of a byte string before it is cut to 64 bits: 5381 to start with,
/// then times 33 plus the byte for each byte.
pub open spec fn djb2(s: Seq<u8>) -> nat
    decreases s.len(),
{
    if s.len() == 0 {
        5381
    } else {
        33 * djb2(s.drop_last()) + s.last() as nat
    }
}

/// The hash of a text: that of its UTF-8 bytes, cut to 64 bits.
pub open spec fn dom_hash(s: Seq<char>) -> nat {
    djb2(encode_utf8(s)) % 0x1_0000_0000_0000_0000
}

/// Simple non-cryptographic hash for DOM ids.
pub fn simple_hash(s: &str) -> (r: u64)
    ensures
        r as nat == dom_hash(s@),
{
    let bytes = s.as_bytes();
    let mut hash: u64 = 5381;
    for i in 0..bytes.len()
        invariant
            hash as nat == djb2(bytes@.take(i as int)) % 0x1_0000_0000_0000_0000,
    {
        let b: u8 = bytes[i];
        proof {
            let m: int = 0x1_0000_0000_0000_0000;
            let d = djb2(bytes@.take(i as int)) as int;
            assert(bytes@.take(i + 1).drop_last() =~= bytes@.take(i as int));
            vstd::arithmetic::div_mod::lemma_mul_mod_noop_right(33, d, m);
            vstd::arithmetic::div_mod::lemma_add_mod_noop(33 * d, b as int, m);
            vstd::arithmetic::div_mod::lemma_add_mod_noop((33 * d) % m, b as int, m);
            assert(hash * 33 == 33 * (d % m));
            vstd::arithmetic::div_mod::lemma_mod_twice(33 * d, m);
        }
        hash = hash.wrapping_mul(33).wrapping_add(b as u64);
    }
    assert(bytes@.take(bytes@.len() as int) =~= bytes@);
    hash
}

// --- Laws of HTML escaping ---

/// The character reference at the start of `t`, if one of those that
/// `html_char` writes stands there, with its length.
pub open spec fn html_reference(t: Seq<char>) -> Option<(char, int)> {
    if t.len() >= 5 && t.take(5) == "&amp;"@ {
        Some(('&', 5))
    } else if t.len() >= 4 && t.take(4) == "&lt;"@ {
        Some(('<', 4))
    } else if t.len() >= 4 && t.take(4) == "&gt;"@ {
        Some(('>', 4))
    } else if t.len() >= 6 && t.take(6) == "&quot;"@ {
        Some(('"', 6))
    } else {
        None
    }
}

/// The text that `t` shows when it is read as HTML text.
pub open spec fn html_read(t: Seq<char>) -> Seq<char>
    decreases t.len(),
{
    if t.len() == 0 {
        Seq::empty()
    } else {
        match html_reference(t) {
            Some((c, n)) => seq![c] + html_read(t.skip(n)),
            None => seq![t[0]] + html_read(t.skip(1)),
        }
    }
}

/// A browser that reads the escaped text shows the text that was escaped.
pub proof fn html_reads_back(s: Seq<char>)
    ensures
        html_read(html_escape(s)) == s,
    decreases s.len(),
{
    let g = |c: char| html_char(c);
    if s.len() == 0 {
        assert(html_read(html_escape(s)) =~= s);
    } else {
        let rest = s.drop_first();
        let t = html_escape(s);
        let piece = html_char(s[0]);
        text::expand_from_first(s, g);
        html_reads_back(rest);
        assert(t == piece + html_escape(rest));
        reveal_strlit("&amp;");
        reveal_strlit("&lt;");
        reveal_strlit("&gt;");
        reveal_strlit("&quot;");
        assert(t.take(piece.len() as int) =~= piece);
        assert(t.skip(piece.len() as int) =~= html_escape(rest));
        if s[0] == '<' || s[0] == '>' || s[0] == '"' {
            assert(t[1] != 'a');
            if t.len() >= 5 && t.take(5) == "&amp;"@ {
                assert(t.take(5)[1] == 'a');
            }
        }
        if s[0] == '>' || s[0] == '"' {
            if t.take(4) == "&lt;"@ {
                assert(t.take(4)[1] == 'l');
            }
        }
        if s[0] == '"' {
            if t.take(4) == "&gt;"@ {
                assert(t.take(4)[1] == 'g');
            }
        }
        if s[0] != '&' && s[0] != '<' && s[0] != '>' && s[0] != '"' {
            if html_reference(t) is Some {
                if t.len() >= 5 && t.take(5) == "&amp;"@ {
                    assert(t.take(5)[0] == '&');
                } else if t.take(4) == "&lt;"@ {
                    assert(t.take(4)[0] == '&');
                } else if t.take(4) == "&gt;"@ {
                    assert(t.take(4)[0] == '&');
                } else {
                    assert(t.take(6)[0] == '&');
                }
            }
            assert(html_reference(t) is None);
        }
        assert(html_read(t) =~= seq![s[0]] + html_read(html_escape(rest)));
        assert(seq![s[0]] + rest =~= s);
    }
}

/// Escaped text opens no tag and ends no quoted attribute value.
pub proof fn html_has_no_markup(s: Seq<char>)
    ensures
        forall|i: int|
            0 <= i < html_escape(s).len() ==> {
                let c = #[trigger] html_escape(s)[i];
                c != '<' && c != '>' && c != '"'
            },
{
    reveal_strlit("&amp;");
    reveal_strlit("&lt;");
    reveal_strlit("&gt;");
    reveal_strlit("&quot;");
    text::expand_all(
        s,
        |c: char| html_char(c),
        |c: char| c != '<' && c != '>' && c != '"',
    );
}

// --- Laws of URL escaping ---

/// The value of a hexadecimal digit.
pub open spec fn hex_value(c: char) -> int {
    if '0' <= c <= '9' {
        c as int - 0x30
    } else {
        c as int - 0x41 + 10
    }
}

/// The bytes that a link's text stands for once its `%` escapes are decoded.
pub open spec fn url_read(t: Seq<char>) -> Seq<u8>
    decreases t.len(),
{
    if t.len() == 0 {
        Seq::empty()
    } else if t[0] == '%' && t.len() >= 3 {
        seq![(16 * hex_value(t[1]) + hex_value(t[2])) as u8] + url_read(t.skip(3))
    } else {
        seq![t[0] as u8] + url_read(t.skip(1))
    }
}

/// The characters that may stand in an escaped link.
pub open spec fn url_safe(c: char) -> bool {
    ||| 'A' <= c <= 'Z'
    ||| 'a' <= c <= 'z'
    ||| '0' <= c <= '9'
    ||| c == '/'
    ||| c == '-'
    ||| c == '_'
    ||| c == '.'
    ||| c == '~'
    ||| c == '%'
}

/// Decoding an escaped byte string gives the byte string.
pub proof fn url_bytes_read_back(s: Seq<u8>)
    ensures
        url_read(url_bytes(s)) == s,
    decreases s.len(),
{
    let g = |b: u8| url_byte(b);
    if s.len() == 0 {
        assert(url_read(url_bytes(s)) =~= s);
    } else {
        let rest = s.drop_first();
        let t = url_bytes(s);
        let piece = url_byte(s[0]);
        text::expand_from_first(s, g);
        url_bytes_read_back(rest);
        assert(t == piece + url_bytes(rest));
        assert(t.skip(piece.len() as int) =~= url_bytes(rest));
        assert(t[0] == piece[0]);
        if !url_plain(s[0]) {
            assert(t[1] == piece[1] && t[2] == piece[2]);
            assert(16 * (s[0] as int / 16) + s[0] as int % 16 == s[0]);
        }
        assert(url_read(t) =~= seq![s[0]] + url_read(url_bytes(rest)));
        assert(seq![s[0]] + rest =~= s);
    }
}

/// Decoding a link gives the UTF-8 bytes of the text it was made from, so
/// following it asks for exactly that text.
pub proof fn url_reads_back(s: Seq<char>)
    ensures
        url_read(url_escape(s)) == encode_utf8(s),
        decode_utf8(url_read(url_escape(s))) == s,
{
    url_bytes_read_back(encode_utf8(s));
    encode_utf8_decode_utf8(s);
}

/// Escaped links hold letters, digits and `/ - _ . ~ %` only.
pub proof fn url_is_safe(s: Seq<char>)
    ensures
        forall|i: int| 0 <= i < url_escape(s).len() ==> url_safe(#[trigger] url_escape(s)[i]),
{
    text::expand_all(encode_utf8(s), |b: u8| url_byte(b), |c: char| url_safe(c));
}

/// Escaped links need no further escaping in HTML or JavaScript.
pub proof fn url_needs_no_more_escaping(s: Seq<char>)
    ensures
        html_escape(url_escape(s)) == url_escape(s),
        js_escape(url_escape(s)) == url_escape(s),
{
    url_is_safe(s);
    text::expand_identity(url_escape(s), |c: char| html_char(c));
    text::expand_identity(url_escape(s), |c: char| js_char(c));
}

/// A `/` joins links as it joins paths.
pub proof fn url_joins(a: Seq<char>, b: Seq<char>)
    ensures
        url_escape(a + "/"@ + b) == url_escape(a) + "/"@ + url_escape(b),
{
    let g = |c: u8| url_byte(c);
    reveal_strlit("/");
    assert("/"@ =~= seq!['/']);
    text::encoding_of_concatenation(a + "/"@, b);
    text::encoding_of_concatenation(a, "/"@);
    is_ascii_chars_encode_utf8("/"@);
    let slash = encode_utf8("/"@);
    assert(slash =~= seq![0x2fu8]);
    text::expand_of_concatenation(encode_utf8(a) + slash, encode_utf8(b), g);
    text::expand_of_concatenation(encode_utf8(a), slash, g);
    text::expand_from_first(slash, g);
    assert(slash.drop_first() =~= Seq::<u8>::empty());
    assert(url_bytes(slash) =~= "/"@);
}

// --- Laws of JavaScript escaping ---

/// The text that a single-quoted JavaScript string literal with the contents
/// `t` stands for; none if `t` ends the literal early or holds an escape that
/// `js_char` does not write.
pub open spec fn js_read(t: Seq<char>) -> Option<Seq<char>>
    decreases t.len(),
{
    if t.len() == 0 {
        Some(Seq::empty())
    } else if t[0] == '\'' || t[0] == '\n' {
        None
    } else if t[0] == '\\' {
        if t.len() < 2 {
            None
        } else {
            match js_read(t.skip(2)) {
                Some(rest) => if t[1] == '\\' || t[1] == '\'' {
                    Some(seq![t[1]] + rest)
                } else if t[1] == 'n' {
                    Some(seq!['\n'] + rest)
                } else {
                    None
                },
                None => None,
            }
        }
    } else {
        match js_read(t.skip(1)) {
            Some(rest) => Some(seq![t[0]] + rest),
            None => None,
        }
    }
}

/// An escaped text, between single quotes, is a JavaScript string literal for
/// the text that was escaped.
pub proof fn js_reads_back(s: Seq<char>)
    ensures
        js_read(js_escape(s)) == Some(s),
    decreases s.len(),
{
    let g = |c: char| js_char(c);
    if s.len() == 0 {
        assert(js_read(js_escape(s))->0 =~= s);
    } else {
        let rest = s.drop_first();
        let t = js_escape(s);
        let piece = js_char(s[0]);
        text::expand_from_first(s, g);
        js_reads_back(rest);
        assert(t == piece + js_escape(rest));
        reveal_strlit("\\\\");
        reveal_strlit("\\'");
        reveal_strlit("\\n");
        assert(t.skip(piece.len() as int) =~= js_escape(rest));
        assert(t[0] == piece[0]);
        if piece.len() > 1 {
            assert(t[1] == piece[1]);
        }
        assert(seq![s[0]] + rest =~= s);
    }
}

// --- Laws of single characters ---

/// HTML escaping goes character by character. It writes `&`, `<`, `>` and `"` as
/// their character references, and every other character as it is.
pub proof fn html_escapes_four_characters(a: Seq<char>, c: char, b: Seq<char>)
    ensures
        html_escape(a + seq![c] + b) == html_escape(a) + html_escape(seq![c]) + html_escape(b),
        html_escape(Seq::empty()).len() == 0,
        c != '&' && c != '<' && c != '>' && c != '"' ==> html_escape(seq![c]) == seq![c],
        html_escape(seq!['&']) == "&amp;"@,
        html_escape(seq!['<']) == "&lt;"@,
        html_escape(seq!['>']) == "&gt;"@,
        html_escape(seq!['"']) == "&quot;"@,
{
    let g = |c: char| html_char(c);
    text::expand_of_concatenation(a + seq![c], b, g);
    text::expand_of_concatenation(a, seq![c], g);
    text::expand_of_one(c, g);
    text::expand_of_one('&', g);
    text::expand_of_one('<', g);
    text::expand_of_one('>', g);
    text::expand_of_one('"', g);
}

/// Whether a link holds a byte as it is: a letter, a digit, or one of `/-_.~`.
pub open spec fn stands_for_itself(c: char) -> bool {
    'A' <= c <= 'Z' || 'a' <= c <= 'z' || '0' <= c <= '9' || c == '/' || c == '-' || c == '_' || c
        == '.' || c == '~'
}

/// URL escaping goes byte by byte. Letters, digits and `/ - _ . ~` stay as they are,
/// and every other byte becomes a `%` and its two digits in hexadecimal, with
/// capital letters.
pub proof fn url_escapes_the_other_bytes(a: Seq<u8>, b: u8, c: Seq<u8>)
    ensures
        url_bytes(a + seq![b] + c) == url_bytes(a) + url_bytes(seq![b]) + url_bytes(c),
        url_bytes(Seq::empty()).len() == 0,
        b < 128 && stands_for_itself(b as char) ==> url_bytes(seq![b]) == seq![b as char],
        b >= 128 || !stands_for_itself(b as char) ==> {
            let t = url_bytes(seq![b]);
            &&& t.len() == 3
            &&& t[0] == '%'
            &&& b / 16 < 10 ==> t[1] as int == '0' as int + b / 16
            &&& b / 16 >= 10 ==> t[1] as int == 'A' as int + b / 16 - 10
            &&& b % 16 < 10 ==> t[2] as int == '0' as int + b % 16
            &&& b % 16 >= 10 ==> t[2] as int == 'A' as int + b % 16 - 10
            &&& url_read(t) == seq![b]
        },
{
    let g = |b: u8| url_byte(b);
    text::expand_of_concatenation(a + seq![b], c, g);
    text::expand_of_concatenation(a, seq![b], g);
    text::expand_of_one(b, g);
    url_bytes_read_back(seq![b]);
}

/// Escaping a text for links escapes its UTF-8 bytes.
pub proof fn url_escapes_utf8(s: Seq<char>)
    ensures
        url_escape(s) == url_bytes(encode_utf8(s)),
{
}

/// JavaScript escaping goes character by character. It puts a backslash before a
/// backslash and a single quote, writes the end of a line as `\n`, and every other
/// character as it is.
pub proof fn js_escapes_three_characters(a: Seq<char>, c: char, b: Seq<char>)
    ensures
        js_escape(a + seq![c] + b) == js_escape(a) + js_escape(seq![c]) + js_escape(b),
        js_escape(Seq::empty()).len() == 0,
        c != '\\' && c != '\'' && c != '\n' ==> js_escape(seq![c]) == seq![c],
        js_escape(seq!['\\']) == seq!['\\', '\\'],
        js_escape(seq!['\'']) == seq!['\\', '\''],
        js_escape(seq!['\n']) == seq!['\\', 'n'],
{
    let g = |c: char| js_char(c);
    text::expand_of_concatenation(a + seq![c], b, g);
    text::expand_of_concatenation(a, seq![c], g);
    text::expand_of_one(c, g);
    text::expand_of_one('\\', g);
    text::expand_of_one('\'', g);
    text::expand_of_one('\n', g);
    reveal_strlit("\\\\");
    reveal_strlit("\\'");
    reveal_strlit("\\n");
    assert("\\\\"@ =~= seq!['\\', '\\']);
    assert("\\'"@ =~= seq!['\\', '\'']);
    assert("\\n"@ =~= seq!['\\', 'n']);
}

/// The hash of a text is 5381 for the empty one, and with each byte more it is
/// taken times 33, plus the byte, cut to 64 bits.
pub proof fn hash_goes_byte_by_byte(s: Seq<char>, c: char)
    requires
        (c as int) < 128,
    ensures
        dom_hash(Seq::empty()) == 5381,
        dom_hash(s.push(c)) == (33 * dom_hash(s) + c as int) % 0x1_0000_0000_0000_0000,
{
    assert(encode_utf8(Seq::<char>::empty()) =~= Seq::<u8>::empty());
    let one = seq![c];
    assert(s.push(c) =~= s + one);
    text::encoding_of_concatenation(s, one);
    is_ascii_chars_encode_utf8(one);
    let b = encode_utf8(s);
    assert(encode_utf8(one) =~= seq![c as u8]);
    assert(encode_utf8(s.push(c)) =~= b.push(c as u8));
    assert(b.push(c as u8).drop_last() =~= b);
    let m: int = 0x1_0000_0000_0000_0000;
    let d = djb2(b) as int;
    vstd::arithmetic::div_mod::lemma_mul_mod_noop_right(33, d, m);
    vstd::arithmetic::div_mod::lemma_add_mod_noop(33 * d, c as int, m);
    vstd::arithmetic::div_mod::lemma_add_mod_noop(33 * (d % m), c as int, m);
}

/// The hash of any bytes grows in the same way.
pub proof fn hash_of_bytes(b: Seq<u8>, x: u8)
    ensures
        djb2(b.push(x)) == 33 * djb2(b) + x,
        djb2(Seq::empty()) == 5381,
{
    assert(b.push(x).drop_last() =~= b);
}

} // verus!
