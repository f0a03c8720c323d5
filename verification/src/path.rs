//! Unix file paths.
//!
//! A path is a byte string, as it is on Unix. `FilePath` is any path;
//! `CanonicalPath` is an absolute one whose components are all plain names,
//! which is the form that resolving a path on disk gives.

use vstd::prelude::*;
use vstd::utf8::*;

use crate::text;

verus! {

/// The byte between the components of a path.
pub const SLASH: u8 = 0x2f;

/// The byte before a file name's extension.
pub const DOT: u8 = 0x2e;

// --- Text ---

/// The text that `String::from_utf8_lossy` gives for a byte string.
pub uninterp spec fn lossy_utf8(bytes: Seq<u8>) -> Seq<char>;

/// Calls `String::from_utf8_lossy`: the text is a function of the bytes, and is
/// the decoded text where the bytes are valid UTF-8.
#[verifier::external_body]
pub(crate) fn lossy_text(bytes: &[u8]) -> (r: String)
    ensures
        r@ == lossy_utf8(bytes@),
        valid_utf8(bytes@) ==> r@ == decode_utf8(bytes@),
{
    String::from_utf8_lossy(bytes).into_owned()
}

// --- Byte strings ---

/// The byte strings held by a vector of byte vectors.
pub open spec fn byte_views(v: Seq<Vec<u8>>) -> Seq<Seq<u8>> {
    Seq::new(v.len(), |i: int| v[i]@)
}

/// The place of the last `x` in `s`.
pub fn last_index(s: &[u8], x: u8) -> (r: Option<usize>)
    ensures
        match r {
            Some(i) => text::last_at(s@, x) == i && i < s@.len(),
            None => text::last_at(s@, x) == -1,
        },
{
    let mut i: usize = s.len();
    while i > 0
        invariant
            i <= s@.len(),
            forall|k: int| i <= k < s@.len() ==> s@[k] != x,
        decreases i,
    {
        i -= 1;
        if s[i] == x {
            proof {
                text::last_at_is_unique(s@, x, i as int);
            }
            return Some(i);
        }
    }
    proof {
        text::last_at_is_unique(s@, x, -1);
    }
    None
}

/// The pieces of `s` between the separators `x`.
pub fn split_bytes(s: &[u8], x: u8) -> (r: Vec<Vec<u8>>)
    ensures
        byte_views(r@) == text::split(s@, x),
{
    let mut done: Vec<Vec<u8>> = Vec::new();
    let mut piece: Vec<u8> = Vec::new();
    assert(byte_views(done@).push(piece@) =~= text::split(s@.take(0), x));
    for i in 0..s.len()
        invariant
            byte_views(done@).push(piece@) == text::split(s@.take(i as int), x),
    {
        let ghost before = byte_views(done@).push(piece@);
        assert(s@.take(i + 1).drop_last() =~= s@.take(i as int));
        assert(before.drop_last() =~= byte_views(done@));
        assert(before.last() == piece@);
        if s[i] == x {
            let ghost was = byte_views(done@);
            let ghost last = piece@;
            done.push(piece);
            piece = Vec::new();
            assert(byte_views(done@) =~= was.push(last));
            assert(byte_views(done@).push(piece@) =~= before.push(Seq::empty()));
        } else {
            piece.push(s[i]);
        }
    }
    let ghost was = byte_views(done@);
    let ghost last = piece@;
    done.push(piece);
    assert(byte_views(done@) =~= was.push(last));
    assert(s@.take(s@.len() as int) =~= s@);
    done
}

// --- Paths ---

/// A path.
pub struct FilePath {
    pub bytes: Vec<u8>,
}

impl View for FilePath {
    type V = Seq<u8>;

    open spec fn view(&self) -> Seq<u8> {
        self.bytes@
    }
}

/// Whether a path starts at the root.
pub open spec fn is_absolute(p: Seq<u8>) -> bool {
    p.len() > 0 && p[0] == SLASH
}

/// The path `rel`, taken from `base`: `rel` itself where it is absolute, and
/// otherwise the two with one `/` in between, unless `base` is empty or ends in
/// one.
pub open spec fn joined(base: Seq<u8>, rel: Seq<u8>) -> Seq<u8> {
    if is_absolute(rel) {
        rel
    } else if base.len() == 0 || base.last() == SLASH {
        base + rel
    } else {
        base.push(SLASH) + rel
    }
}

/// A path without the `/` and `/.` at its end, which name nothing.
pub open spec fn trim_end(p: Seq<u8>) -> Seq<u8>
    decreases p.len(),
{
    if p.len() > 0 && p.last() == SLASH {
        trim_end(p.drop_last())
    } else if p.len() > 1 && p.last() == DOT && p[p.len() - 2] == SLASH {
        trim_end(p.drop_last())
    } else {
        p
    }
}

/// The final component of a path, where that is a name: none for a path that
/// is empty, is the root, or ends in `.` or `..`.
pub open spec fn file_name_of(p: Seq<u8>) -> Option<Seq<u8>> {
    let name = text::after_last(trim_end(p), SLASH);
    if name.len() == 0 || name == seq![DOT] || name == seq![DOT, DOT] {
        None
    } else {
        Some(name)
    }
}

/// What follows the last `.` of the file name; none if there is no file name,
/// no `.` in it, or only one and that at its start.
pub open spec fn extension_of(p: Seq<u8>) -> Option<Seq<u8>> {
    match file_name_of(p) {
        Some(name) => if text::last_at(name, DOT) <= 0 {
            None
        } else {
            Some(text::after_last(name, DOT))
        },
        None => None,
    }
}

/// What an optional byte vector holds.
pub open spec fn bytes_option(v: Option<Vec<u8>>) -> Option<Seq<u8>> {
    match v {
        Some(b) => Some(b@),
        None => None,
    }
}

impl Clone for FilePath {
    fn clone(&self) -> (r: FilePath)
        ensures
            r@ == self@,
    {
        let bytes = self.bytes.clone();
        assert(bytes@ =~= self.bytes@);
        FilePath { bytes }
    }
}

impl FilePath {
    /// The path that `text` names.
    pub fn new(text: &str) -> (r: FilePath)
        ensures
            r@ == encode_utf8(text@),
    {
        FilePath { bytes: text.as_bytes_vec() }
    }

    /// The path `rel`, taken from this one.
    pub fn join(&self, rel: &str) -> (r: FilePath)
        ensures
            r@ == joined(self@, encode_utf8(rel@)),
    {
        let tail = rel.as_bytes();
        let mut out: Vec<u8> = Vec::new();
        if !(tail.len() > 0 && tail[0] == SLASH) {
            out.extend_from_slice(self.bytes.as_slice());
            assert(out@ =~= self@);
            if out.len() > 0 && out[out.len() - 1] != SLASH {
                out.push(SLASH);
            }
        }
        let ghost head = out@;
        out.extend_from_slice(tail);
        assert(out@ =~= head + tail@);
        assert(out@ =~= joined(self@, tail@));
        FilePath { bytes: out }
    }

    /// The final component, where that is a name.
    pub fn file_name(&self) -> (r: Option<Vec<u8>>)
        ensures
            bytes_option(r) == file_name_of(self@),
    {
        let p = self.bytes.as_slice();
        let mut end: usize = p.len();
        assert(p@.take(p@.len() as int) =~= p@);
        while end > 0 && (p[end - 1] == SLASH || (end > 1 && p[end - 1] == DOT && p[end - 2]
            == SLASH))
            invariant
                end <= p@.len(),
                trim_end(p@.take(end as int)) == trim_end(p@),
            decreases end,
        {
            assert(p@.take(end as int).drop_last() =~= p@.take(end - 1));
            end -= 1;
        }
        assert(trim_end(p@) == p@.take(end as int));
        let kept = vstd::slice::slice_subrange(p, 0, end);
        assert(kept@ =~= p@.take(end as int));
        let start: usize = match last_index(kept, SLASH) {
            Some(i) => i + 1,
            None => 0,
        };
        let name = vstd::slice::slice_to_vec(vstd::slice::slice_subrange(kept, start, end));
        assert(name@ =~= text::after_last(kept@, SLASH));
        if name.len() == 0 {
            return None;
        }
        if name.len() == 1 && name[0] == DOT {
            assert(name@ =~= seq![DOT]);
            return None;
        }
        if name.len() == 2 && name[0] == DOT && name[1] == DOT {
            assert(name@ =~= seq![DOT, DOT]);
            return None;
        }
        Some(name)
    }

    /// What follows the last `.` of the file name.
    pub fn extension(&self) -> (r: Option<Vec<u8>>)
        ensures
            bytes_option(r) == extension_of(self@),
    {
        match self.file_name() {
            Some(name) => match last_index(name.as_slice(), DOT) {
                Some(i) => if i == 0 {
                    None
                } else {
                    let n: usize = name.len();
                    let ext = vstd::slice::slice_to_vec(
                        vstd::slice::slice_subrange(name.as_slice(), i + 1, n),
                    );
                    assert(ext@ =~= text::after_last(name@, DOT));
                    Some(ext)
                },
                None => None,
            },
            None => None,
        }
    }

    /// The path as text, with what is not UTF-8 replaced.
    pub fn to_text(&self) -> (r: String)
        ensures
            r@ == lossy_utf8(self@),
            valid_utf8(self@) ==> r@ == decode_utf8(self@),
    {
        lossy_text(self.bytes.as_slice())
    }
}

// --- Canonical paths ---

/// Whether a component is a plain name: not empty, `.` or `..`, and without a
/// `/`.
pub open spec fn is_name(part: Seq<u8>) -> bool {
    &&& part.len() > 0
    &&& part != seq![DOT]
    &&& part != seq![DOT, DOT]
    &&& !part.contains(SLASH)
}

/// Whether all components are plain names.
pub open spec fn all_names(parts: Seq<Seq<u8>>) -> bool {
    forall|i: int| 0 <= i < parts.len() ==> is_name(#[trigger] parts[i])
}

/// The absolute path with the given components.
pub open spec fn rendered(parts: Seq<Seq<u8>>) -> Seq<u8> {
    seq![SLASH] + text::join(parts, SLASH)
}

/// The components of a canonical path; none for a path in any other form.
pub open spec fn canonical_parts(p: Seq<u8>) -> Option<Seq<Seq<u8>>> {
    if p == seq![SLASH] {
        Some(Seq::empty())
    } else if is_absolute(p) && all_names(text::split(p.skip(1), SLASH)) {
        Some(text::split(p.skip(1), SLASH))
    } else {
        None
    }
}

/// Whether the file or directory with the components `parts` is `base` or lies
/// below it.
pub open spec fn within(parts: Seq<Seq<u8>>, base: Seq<Seq<u8>>) -> bool {
    base.is_prefix_of(parts)
}

/// The relative path from `base` to `parts`.
pub open spec fn relative_to(parts: Seq<Seq<u8>>, base: Seq<Seq<u8>>) -> Seq<u8> {
    text::join(parts.skip(base.len() as int), SLASH)
}

/// An absolute path whose components are all plain names.
pub struct CanonicalPath {
    parts: Vec<Vec<u8>>,
}

impl View for CanonicalPath {
    type V = Seq<Seq<u8>>;

    closed spec fn view(&self) -> Seq<Seq<u8>> {
        byte_views(self.parts@)
    }
}

/// Whether a component is a plain name.
fn plain_name(part: &Vec<u8>) -> (r: bool)
    ensures
        r == is_name(part@),
{
    if part.len() == 0 {
        return false;
    }
    if part.len() == 1 && part[0] == DOT {
        assert(part@ =~= seq![DOT]);
        return false;
    }
    if part.len() == 2 && part[0] == DOT && part[1] == DOT {
        assert(part@ =~= seq![DOT, DOT]);
        return false;
    }
    for i in 0..part.len()
        invariant
            forall|k: int| 0 <= k < i ==> part@[k] != SLASH,
    {
        if part[i] == SLASH {
            assert(part@.contains(SLASH));
            return false;
        }
    }
    true
}

impl CanonicalPath {
    #[verifier::type_invariant]
    spec fn well_formed(self) -> bool {
        all_names(byte_views(self.parts@))
    }

    /// Reads a path that is in canonical form.
    pub fn parse(path: &FilePath) -> (r: Option<CanonicalPath>)
        ensures
            match r {
                Some(c) => canonical_parts(path@) == Some(c@),
                None => canonical_parts(path@) is None,
            },
    {
        let p = path.bytes.as_slice();
        if p.len() == 0 || p[0] != SLASH {
            return None;
        }
        if p.len() == 1 {
            assert(p@ =~= seq![SLASH]);
            let parts: Vec<Vec<u8>> = Vec::new();
            assert(byte_views(parts@) =~= Seq::empty());
            return Some(CanonicalPath { parts });
        }
        let rest = vstd::slice::slice_subrange(p, 1, p.len());
        assert(rest@ =~= p@.skip(1));
        let parts = split_bytes(rest, SLASH);
        let ghost views = byte_views(parts@);
        for i in 0..parts.len()
            invariant
                views == byte_views(parts@),
                views == text::split(path@.skip(1), SLASH),
                path@.len() > 1,
                forall|k: int| 0 <= k < i ==> is_name(#[trigger] views[k]),
        {
            if !plain_name(&parts[i]) {
                assert(!is_name(views[i as int]));
                return None;
            }
        }
        Some(CanonicalPath { parts })
    }

    /// The path in bytes.
    pub fn path(&self) -> (r: FilePath)
        ensures
            r@ == rendered(self@),
            all_names(self@),
    {
        proof {
            use_type_invariant(self);
        }
        let mut out: Vec<u8> = Vec::new();
        let tail = self.joined_from(0);
        out.push(SLASH);
        out.extend_from_slice(tail.as_slice());
        assert(self@.skip(0) =~= self@);
        assert(out@ =~= rendered(self@));
        FilePath { bytes: out }
    }

    /// The components from `from` on, in a row with `/` between each two.
    fn joined_from(&self, from: usize) -> (r: Vec<u8>)
        requires
            from <= self@.len(),
        ensures
            r@ == text::join(self@.skip(from as int), SLASH),
    {
        let ghost views = self@.skip(from as int);
        let mut out: Vec<u8> = Vec::new();
        assert(views.take(0) =~= Seq::empty());
        for i in from..self.parts.len()
            invariant
                from <= self.parts@.len(),
                views == self@.skip(from as int),
                out@ == text::join(views.take(i - from), SLASH),
        {
            let ghost before = out@;
            if i > from {
                out.push(SLASH);
            }
            out.extend_from_slice(self.parts[i].as_slice());
            proof {
                text::join_next(views, i - from, SLASH);
                assert(views[i - from] == self.parts@[i as int]@);
                if i == from {
                    assert(before =~= Seq::empty());
                    assert(out@ =~= views[0]);
                } else {
                    assert(out@ =~= before.push(SLASH) + views[i - from]);
                }
            }
        }
        assert(views.take(views.len() as int) =~= views);
        out
    }

    /// Whether this is `base` or lies below it.
    pub fn starts_with(&self, base: &CanonicalPath) -> (r: bool)
        ensures
            r == within(self@, base@),
    {
        if base.parts.len() > self.parts.len() {
            return false;
        }
        for i in 0..base.parts.len()
            invariant
                base.parts@.len() <= self.parts@.len(),
                forall|k: int| 0 <= k < i ==> self@[k] == base@[k],
        {
            if !text::same_bytes(self.parts[i].as_slice(), base.parts[i].as_slice()) {
                assert(self@[i as int] != base@[i as int]);
                return false;
            }
        }
        true
    }

    /// The relative path from `base` to this; none if this does not lie there.
    pub fn strip_prefix(&self, base: &CanonicalPath) -> (r: Option<FilePath>)
        ensures
            match r {
                Some(rel) => within(self@, base@) && rel@ == relative_to(self@, base@),
                None => !within(self@, base@),
            },
    {
        if !self.starts_with(base) {
            return None;
        }
        Some(FilePath { bytes: self.joined_from(base.parts.len()) })
    }
}

impl Clone for CanonicalPath {
    fn clone(&self) -> (r: CanonicalPath)
        ensures
            r@ == self@,
    {
        proof {
            use_type_invariant(self);
        }
        let mut parts: Vec<Vec<u8>> = Vec::new();
        for i in 0..self.parts.len()
            invariant
                byte_views(parts@) == self@.take(i as int),
        {
            let part = self.parts[i].clone();
            assert(part@ =~= self.parts@[i as int]@);
            let ghost was = byte_views(parts@);
            parts.push(part);
            assert(byte_views(parts@) =~= was.push(self@[i as int]));
            assert(self@.take(i + 1) =~= self@.take(i as int).push(self@[i as int]));
        }
        assert(self@.take(self@.len() as int) =~= self@);
        CanonicalPath { parts }
    }
}

// --- Laws ---

/// Reading a canonical path and writing it out gives the path.
pub proof fn canonical_form_writes_back(p: Seq<u8>)
    requires
        canonical_parts(p) is Some,
    ensures
        all_names(canonical_parts(p)->0),
        rendered(canonical_parts(p)->0) == p,
{
    if p == seq![SLASH] {
        assert(rendered(Seq::empty()) =~= p);
    } else {
        text::join_of_split(p.skip(1), SLASH);
        assert(rendered(canonical_parts(p)->0) =~= p);
    }
}

/// Writing out plain names and reading the path gives the names, so different
/// names make different paths.
pub proof fn canonical_form_reads_back(parts: Seq<Seq<u8>>)
    requires
        all_names(parts),
    ensures
        canonical_parts(rendered(parts)) == Some(parts),
{
    let p = rendered(parts);
    if parts.len() == 0 {
        assert(p =~= seq![SLASH]);
        assert(parts =~= Seq::empty());
    } else {
        text::split_of_join(parts, SLASH);
        assert(p.skip(1) =~= text::join(parts, SLASH));
        if p == seq![SLASH] {
            assert(text::join(parts, SLASH).len() == 0);
            assert(text::split(text::join(parts, SLASH), SLASH)[0].len() == 0);
            assert(is_name(parts[0]));
        }
    }
}

/// Joining a directory with the relative path to what lies below it leads there.
pub proof fn relative_path_leads_back(parts: Seq<Seq<u8>>, base: Seq<Seq<u8>>)
    requires
        all_names(parts),
        within(parts, base),
        base.len() < parts.len(),
    ensures
        joined(rendered(base), relative_to(parts, base)) == rendered(parts),
{
    let rest = parts.skip(base.len() as int);
    let rel = text::join(rest, SLASH);
    assert(parts =~= base + rest);
    assert(!is_absolute(rel)) by {
        text::split_of_join(rest, SLASH);
        assert forall|i: int| 0 <= i < rest.len() implies is_name(#[trigger] rest[i]) by {
            assert(rest[i] == parts[i + base.len()]);
        }
        starts_with_first_piece(rest);
    }
    if base.len() == 0 {
        assert(rest =~= parts);
        assert(rendered(base) =~= seq![SLASH]);
        assert(joined(rendered(base), rel) =~= rendered(parts));
    } else {
        text::join_of_concatenation(base, rest, SLASH);
        assert(is_name(parts[base.len() - 1]));
        ends_with_last_piece(base);
        assert(joined(rendered(base), rel) =~= rendered(parts));
    }
}

/// A join of names starts with the first name's first byte.
proof fn starts_with_first_piece(parts: Seq<Seq<u8>>)
    requires
        parts.len() > 0,
        parts[0].len() > 0,
    ensures
        text::join(parts, SLASH).len() > 0,
        text::join(parts, SLASH)[0] == parts[0][0],
    decreases parts.len(),
{
    if parts.len() > 1 {
        starts_with_first_piece(parts.drop_last());
    }
}

/// A join of names ends with the last name's last byte.
proof fn ends_with_last_piece(parts: Seq<Seq<u8>>)
    requires
        parts.len() > 0,
        parts.last().len() > 0,
    ensures
        text::join(parts, SLASH).len() > 0,
        text::join(parts, SLASH).last() == parts.last().last(),
{
}

/// A path taken from a directory ends in that path. It starts with the directory,
/// with one `/` in between, unless it is absolute itself.
pub proof fn joined_paths(base: Seq<u8>, rel: Seq<u8>)
    ensures
        rel.len() > 0 && rel[0] == '/' as u8 ==> joined(base, rel) == rel,
        rel.len() == 0 || rel[0] != '/' as u8 ==> {
            &&& base.len() == 0 ==> joined(base, rel) == rel
            &&& base.len() > 0 && base.last() == '/' as u8 ==> joined(base, rel) == base + rel
            &&& base.len() > 0 && base.last() != '/' as u8 ==> joined(base, rel) == base + seq![
                '/' as u8,
            ] + rel
        },
{
    assert(base + rel =~= rel || base.len() > 0);
    assert(base.push(SLASH) + rel =~= base + seq!['/' as u8] + rel);
}

/// A plain name is not empty, and is neither `.` nor `..`, and has no `/`.
pub proof fn plain_names(part: Seq<u8>)
    ensures
        is_name(part) <==> {
            &&& part.len() > 0
            &&& !(part.len() == 1 && part[0] == '.' as u8)
            &&& !(part.len() == 2 && part[0] == '.' as u8 && part[1] == '.' as u8)
            &&& forall|i: int| 0 <= i < part.len() ==> part[i] != '/' as u8
        },
{
    if part.len() == 1 && part[0] == DOT {
        assert(part =~= seq![DOT]);
    }
    if part.len() == 2 && part[0] == DOT && part[1] == DOT {
        assert(part =~= seq![DOT, DOT]);
    }
    if forall|i: int| 0 <= i < part.len() ==> part[i] != '/' as u8 {
        assert(!part.contains(SLASH));
    }
    if !part.contains(SLASH) {
        assert forall|i: int| 0 <= i < part.len() implies part[i] != '/' as u8 by {
            assert(part.contains(part[i]));
        }
    }
}

/// What lies at the end of a path, without a `/` or `/.` behind it, is its file
/// name.
pub proof fn file_name_in_directory(dir: Seq<u8>, name: Seq<u8>)
    requires
        is_name(name),
    ensures
        file_name_of(dir.push('/' as u8) + name) == Some(name),
        file_name_of(name) == Some(name),
{
    plain_names(name);
    let p = dir.push('/' as u8) + name;
    assert(p.last() == name.last());
    assert(name.last() != SLASH);
    if name.len() == 1 {
        assert(name[0] != DOT);
    } else {
        assert(p[p.len() - 2] == name[name.len() - 2]);
    }
    assert(trim_end(p) == p);
    assert(trim_end(name) == name);
    assert forall|i: int| dir.len() < i < p.len() implies p[i] != SLASH by {
        assert(p[i] == name[i - dir.len() - 1]);
    }
    text::last_at_is_unique(p, SLASH, dir.len() as int);
    text::last_at_is_unique(name, SLASH, -1);
    assert(text::after_last(p, SLASH) =~= name);
    assert(text::after_last(name, SLASH) =~= name);
}

/// A `/` or `/.` behind a path does not change its file name; and a path that is
/// empty or ends in `..` has none.
pub proof fn file_name_ignores_the_end(p: Seq<u8>)
    ensures
        file_name_of(p.push('/' as u8)) == file_name_of(p),
        file_name_of(p.push('/' as u8).push('.' as u8)) == file_name_of(p),
        file_name_of(Seq::empty()) is None,
        file_name_of(p.push('/' as u8) + seq!['.' as u8, '.' as u8]) is None,
        file_name_of(seq!['.' as u8]) is None,
        file_name_of(seq!['.' as u8, '.' as u8]) is None,
{
    let s = p.push('/' as u8);
    assert(s.drop_last() =~= p);
    let d = s.push('.' as u8);
    assert(d.drop_last() =~= s);
    assert(trim_end(d) == trim_end(s));
    let dots = seq![DOT, DOT];
    let u = s + dots;
    assert(u.last() == DOT && u[u.len() - 2] == DOT);
    assert(trim_end(u) == u);
    text::last_at_is_unique(u, SLASH, p.len() as int);
    assert(text::after_last(u, SLASH) =~= dots);
    assert(trim_end(Seq::<u8>::empty()) == Seq::<u8>::empty());
    text::last_at_is_unique(Seq::<u8>::empty(), SLASH, -1);
    let one = seq![DOT];
    assert(trim_end(one) == one);
    text::last_at_is_unique(one, SLASH, -1);
    assert(text::after_last(one, SLASH) =~= one);
    assert(trim_end(dots) == dots);
    text::last_at_is_unique(dots, SLASH, -1);
    assert(text::after_last(dots, SLASH) =~= dots);
}

/// A file name's extension is what follows its last `.`, where something comes
/// before that; a name without a `.`, or with its only one in front, has none.
pub proof fn extensions(p: Seq<u8>, stem: Seq<u8>, ext: Seq<u8>)
    requires
        !ext.contains('.' as u8),
    ensures
        stem.len() > 0 && file_name_of(p) == Some(stem.push('.' as u8) + ext) ==> extension_of(p)
            == Some(ext),
        file_name_of(p) == Some(ext) ==> extension_of(p) is None,
        file_name_of(p) == Some(seq!['.' as u8] + ext) ==> extension_of(p) is None,
        file_name_of(p) is None ==> extension_of(p) is None,
{
    let a = stem.push('.' as u8) + ext;
    assert forall|i: int| stem.len() < i < a.len() implies a[i] != DOT by {
        assert(ext.contains(ext[i - stem.len() - 1]));
    }
    text::last_at_is_unique(a, DOT, stem.len() as int);
    assert(text::after_last(a, DOT) =~= ext);
    assert forall|i: int| 0 <= i < ext.len() implies ext[i] != DOT by {
        assert(ext.contains(ext[i]));
    }
    text::last_at_is_unique(ext, DOT, -1);
    let b = seq!['.' as u8] + ext;
    assert forall|i: int| 0 < i < b.len() implies b[i] != DOT by {
        assert(b[i] == ext[i - 1]);
    }
    text::last_at_is_unique(b, DOT, 0);
}

/// What lies in a directory has the directory's components, and maybe more behind
/// them.
pub proof fn inside_is_a_longer_way(parts: Seq<Seq<u8>>, base: Seq<Seq<u8>>)
    ensures
        within(parts, base) <==> exists|rest: Seq<Seq<u8>>| #[trigger] (base + rest) == parts,
        within(parts, base) <==> parts.len() >= base.len() && forall|i: int|
            0 <= i < base.len() ==> #[trigger] parts[i] == base[i],
{
    if within(parts, base) {
        assert(base + parts.skip(base.len() as int) =~= parts);
    }
    if exists|rest: Seq<Seq<u8>>| #[trigger] (base + rest) == parts {
        let rest = choose|rest: Seq<Seq<u8>>| #[trigger] (base + rest) == parts;
        assert(base =~= parts.subrange(0, base.len() as int));
    }
    if parts.len() >= base.len() && forall|i: int|
        0 <= i < base.len() ==> #[trigger] parts[i] == base[i] {
        assert(base =~= parts.subrange(0, base.len() as int));
    }
}

/// A directory's components, each behind a `/`, are its path; the root alone has
/// just the one `/`.
pub proof fn paths_are_their_components(dir: Seq<Seq<u8>>, name: Seq<u8>)
    ensures
        rendered(Seq::empty()) == seq!['/' as u8],
        rendered(seq![name]) == seq!['/' as u8] + name,
        dir.len() > 0 ==> rendered(dir.push(name)) == rendered(dir) + seq!['/' as u8] + name,
        relative_to(dir.push(name), dir) == name,
        relative_to(dir, dir).len() == 0,
{
    assert(rendered(Seq::empty()) =~= seq!['/' as u8]);
    assert(dir.push(name).drop_last() =~= dir);
    if dir.len() > 0 {
        assert(rendered(dir.push(name)) =~= rendered(dir) + seq!['/' as u8] + name);
    }
    assert(dir.push(name).skip(dir.len() as int) =~= seq![name]);
    assert(dir.skip(dir.len() as int) =~= Seq::empty());
}

/// A path is in canonical form just where it is that of plain names.
pub proof fn canonical_form_is_of_names(p: Seq<u8>)
    ensures
        canonical_parts(p) is Some <==> exists|parts: Seq<Seq<u8>>|
            (forall|i: int| 0 <= i < parts.len() ==> is_name(#[trigger] parts[i]))
                && #[trigger] rendered(parts) == p,
        canonical_parts(p) matches Some(parts) ==> rendered(parts) == p && forall|i: int|
            0 <= i < parts.len() ==> is_name(#[trigger] parts[i]),
{
    if canonical_parts(p) is Some {
        canonical_form_writes_back(p);
    }
    if exists|parts: Seq<Seq<u8>>| all_names(parts) && #[trigger] rendered(parts) == p {
        let parts = choose|parts: Seq<Seq<u8>>| all_names(parts) && #[trigger] rendered(parts) == p;
        canonical_form_reads_back(parts);
    }
}

/// A path is its bytes, and what an optional byte vector holds are its bytes.
pub proof fn paths_are_bytes(p: FilePath, v: Vec<u8>)
    ensures
        p@ == p.bytes@,
        bytes_option(Some(v)) == Some(v@),
        bytes_option(None) is None,
{
}

} // verus!
