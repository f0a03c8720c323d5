//! The configuration, the download marks and the state of the server.

use vstd::prelude::*;
use vstd::utf8::*;

use crate::order;
use crate::path::{CanonicalPath, FilePath};
use crate::text;

verus! {

// --- Configuration ---

/// The configuration file.
pub struct Config {
    pub server: ServerConfig,
    pub directories: Vec<DirConfig>,
}

/// The server's own settings.
pub struct ServerConfig {
    /// Address and port to listen on.
    pub bind: String,
    /// Certificate chain for HTTPS, as a PEM file.
    pub tls_cert: Option<FilePath>,
    /// Private key for HTTPS, as a PEM file.
    pub tls_key: Option<FilePath>,
    /// Where generated thumbnails are cached.
    pub cache_dir: FilePath,
    /// Where download marks are persisted.
    pub state_file: FilePath,
    /// Thumbnail width and height in pixels.
    pub thumb_size: u32,
}

/// The thumbnail size where the configuration gives none.
pub fn default_thumb_size() -> (r: u32)
    ensures
        r == 300,
{
    300
}

/// A directory whose images are served.
pub struct DirConfig {
    pub name: String,
    pub path: FilePath,
}

impl ServerConfig {
    /// Whether to serve HTTPS: both the certificate and the key are given.
    pub fn use_tls(&self) -> (r: bool)
        ensures
            r == (self.tls_cert is Some && self.tls_key is Some),
    {
        self.tls_cert.is_some() && self.tls_key.is_some()
    }
}

// --- Lists in JSON ---

/// How one character is written in a JSON string.
pub open spec fn json_char(c: char) -> Seq<char> {
    if c == '"' {
        seq!['\\', '"']
    } else if c == '\\' {
        seq!['\\', '\\']
    } else if c as int == 0x08 {
        seq!['\\', 'b']
    } else if c as int == 0x09 {
        seq!['\\', 't']
    } else if c as int == 0x0a {
        seq!['\\', 'n']
    } else if c as int == 0x0c {
        seq!['\\', 'f']
    } else if c as int == 0x0d {
        seq!['\\', 'r']
    } else if (c as int) < 0x20 {
        seq!['\\', 'u', '0', '0', lower_hex(c as int / 16), lower_hex(c as int % 16)]
    } else {
        seq![c]
    }
}

/// The lower-case hexadecimal digit for `n`.
pub open spec fn lower_hex(n: int) -> char {
    if n < 10 {
        (0x30 + n) as char
    } else {
        (0x61 + n - 10) as char
    }
}

/// A string in JSON.
pub open spec fn json_string(s: Seq<char>) -> Seq<char> {
    seq!['"'] + text::expand(s, |c: char| json_char(c)) + seq!['"']
}

/// A list of strings in JSON.
pub open spec fn json_list_text(names: Seq<Seq<char>>) -> Seq<char> {
    seq!['['] + text::join(names.map_values(|s: Seq<char>| json_string(s)), ',') + seq![']']
}

/// The list of strings that `serde_json::from_str` reads in a JSON text; none
/// where the text is no such list.
pub uninterp spec fn json_list_in(json: Seq<char>) -> Option<Seq<Seq<char>>>;

/// Calls `serde_json::to_string` on a list of strings. It writes the list
/// without spaces and escapes what must be escaped, and `serde_json::from_str`
/// reads the strings back. Writing a list of strings does not fail.
#[verifier::external_body]
fn write_json_list(names: &Vec<String>) -> (r: String)
    ensures
        r@ == json_list_text(text::texts(names@)),
        json_list_in(r@) == Some(text::texts(names@)),
{
    serde_json::to_string(names).unwrap()
}

/// Calls `serde_json::from_str` for a list of strings. What it reads is a
/// function of the text.
#[verifier::external_body]
fn read_json_list(json: &str) -> (r: Option<Vec<String>>)
    ensures
        text::texts_option(r) == json_list_in(json@),
{
    serde_json::from_str::<Vec<String>>(json).ok()
}

// --- Download marks ---

/// The images that are marked as downloaded, by absolute path.
///
/// The paths are kept in order, each once.
pub struct DownloadState {
    marked: Vec<String>,
}

/// Whether the names are in order and no name occurs twice.
pub open spec fn strictly_sorted(names: Seq<Seq<char>>) -> bool {
    forall|i: int, j: int|
        0 <= i < j < names.len() ==> !order::lex_le(
            encode_utf8(#[trigger] names[j]),
            encode_utf8(#[trigger] names[i]),
        )
}

impl View for DownloadState {
    type V = Set<Seq<char>>;

    open spec fn view(&self) -> Set<Seq<char>> {
        self.listed().to_set()
    }
}

/// The marks after the one for `path` has been switched over.
pub open spec fn toggled(marks: Set<Seq<char>>, path: Seq<char>) -> Set<Seq<char>> {
    if marks.contains(path) {
        marks.remove(path)
    } else {
        marks.insert(path)
    }
}

/// The marks that a saved list holds: none if nothing was saved.
pub open spec fn restored(saved: Option<Seq<Seq<char>>>) -> Set<Seq<char>> {
    match saved {
        Some(names) => names.to_set(),
        None => Set::empty(),
    }
}

/// The marks that the JSON text of a saved list holds: none if nothing was saved
/// or it is not a list of strings.
pub open spec fn loaded(list: Option<Seq<char>>) -> Set<Seq<char>> {
    match list {
        Some(json) => restored(json_list_in(json)),
        None => Set::empty(),
    }
}

impl Default for DownloadState {
    fn default() -> (r: DownloadState)
        ensures
            r@ == Set::<Seq<char>>::empty(),
    {
        let r = DownloadState { marked: Vec::new() };
        assert(r@ =~= Set::empty());
        r
    }
}

impl DownloadState {
    /// The marked paths in order.
    pub closed spec fn listed(self) -> Seq<Seq<char>> {
        text::texts(self.marked@)
    }

    #[verifier::type_invariant]
    spec fn well_formed(self) -> bool {
        strictly_sorted(self.listed())
    }

    /// The marks that a saved list holds: none if nothing was saved.
    pub fn restore(saved: Option<Vec<String>>) -> (r: DownloadState)
        ensures
            r@ == restored(text::texts_option(saved)),
    {
        let names = match saved {
            Some(names) => names,
            None => {
                return DownloadState::default();
            },
        };
        let ghost given = text::texts(names@);
        let left = order::sort_names(names, false);
        let ghost sorted = text::texts(left@);
        proof {
            same_members(given, sorted);
        }
        let mut kept: Vec<String> = Vec::new();
        assert(text::texts(kept@) =~= Seq::empty());
        for i in 0..left.len()
            invariant
                sorted == text::texts(left@),
                order::is_sorted(sorted, false),
                strictly_sorted(text::texts(kept@)),
                i > 0 ==> kept@.len() > 0 && text::texts(kept@).last() == sorted[i - 1],
                i == 0 ==> kept@.len() == 0,
                forall|s: Seq<char>|
                    text::texts(kept@).contains(s) <==> sorted.take(i as int).contains(s),
        {
            let n: usize = kept.len();
            let again: bool = n > 0 && text::same_text(kept[n - 1].as_str(), left[i].as_str());
            let ghost before = text::texts(kept@);
            if !again {
                let s = left[i].clone();
                proof {
                    text::texts_push(kept@, s);
                    append_later(before, sorted, i as int);
                }
                kept.push(s);
            }
            proof {
                if again {
                    assert(before[n - 1] == sorted[i as int]);
                }
                text::members_push(before, sorted[i as int]);
                text::members_push(sorted.take(i as int), sorted[i as int]);
                assert(sorted.take(i + 1) =~= sorted.take(i as int).push(sorted[i as int]));
                let now = text::texts(kept@);
                assert(again ==> now == before);
                assert(!again ==> now == before.push(sorted[i as int]));
                assert forall|s: Seq<char>|
                    now.contains(s) <==> sorted.take(i + 1).contains(s) by {
                    assert(before.contains(s) <==> sorted.take(i as int).contains(s));
                }
            }
        }
        assert(sorted.take(sorted.len() as int) =~= sorted);
        let r = DownloadState { marked: kept };
        assert(r@ =~= given.to_set());
        r
    }

    /// The marks that the JSON text of a saved list holds: none if nothing was
    /// saved or it is not a list of strings.
    pub fn load(list: Option<&str>) -> (r: DownloadState)
        ensures
            r@ == loaded(text::str_option(list)),
    {
        match list {
            Some(json) => DownloadState::restore(read_json_list(json)),
            None => DownloadState::default(),
        }
    }

    /// The marked paths in order, each once.
    pub fn names(&self) -> (r: &Vec<String>)
        ensures
            text::texts(r@) == self.listed(),
            strictly_sorted(self.listed()),
    {
        proof {
            use_type_invariant(self);
        }
        &self.marked
    }

    /// The place of the first mark that does not come before `path`.
    fn place(&self, path: &str) -> (r: usize)
        ensures
            r <= self.listed().len(),
            forall|k: int|
                0 <= k < r ==> !order::lex_le(
                    encode_utf8(path@),
                    encode_utf8(#[trigger] self.listed()[k]),
                ),
            forall|k: int|
                r <= k < self.listed().len() ==> order::lex_le(
                    encode_utf8(path@),
                    encode_utf8(#[trigger] self.listed()[k]),
                ),
    {
        proof {
            use_type_invariant(self);
        }
        let ghost all = self.listed();
        let ghost key = encode_utf8(path@);
        let mut low: usize = 0;
        let mut high: usize = self.marked.len();
        while low < high
            invariant
                low <= high <= all.len(),
                all == self.listed(),
                key == encode_utf8(path@),
                strictly_sorted(all),
                forall|k: int|
                    0 <= k < low ==> !order::lex_le(key, encode_utf8(#[trigger] all[k])),
                forall|k: int|
                    high <= k < all.len() ==> order::lex_le(key, encode_utf8(#[trigger] all[k])),
            decreases high - low,
        {
            let mid: usize = low + (high - low) / 2;
            assert(self.marked@[mid as int]@ == all[mid as int]);
            if order::comes_before(path, self.marked[mid].as_str(), false) {
                assert forall|k: int| mid <= k < all.len() implies order::lex_le(
                    key,
                    encode_utf8(#[trigger] all[k]),
                ) by {
                    if k > mid {
                        let m = encode_utf8(all[mid as int]);
                        assert(!order::lex_le(encode_utf8(all[k]), m));
                        order::lex_total(encode_utf8(all[k]), m);
                        order::lex_transitive(key, m, encode_utf8(all[k]));
                    }
                }
                high = mid;
            } else {
                assert forall|k: int| 0 <= k <= mid implies !order::lex_le(
                    key,
                    encode_utf8(#[trigger] all[k]),
                ) by {
                    if k < mid && order::lex_le(key, encode_utf8(all[k])) {
                        let m = encode_utf8(all[mid as int]);
                        assert(!order::lex_le(m, encode_utf8(all[k])));
                        order::lex_total(m, encode_utf8(all[k]));
                        order::lex_transitive(key, encode_utf8(all[k]), m);
                    }
                }
                low = mid + 1;
            }
        }
        low
    }

    /// Whether the image at `path` is marked.
    pub fn contains(&self, path: &str) -> (r: bool)
        ensures
            r == self@.contains(path@),
    {
        let at = self.place(path);
        proof {
            use_type_invariant(self);
            self.found(path@, at as int);
        }
        at < self.marked.len() && text::same_text(self.marked[at].as_str(), path)
    }

    /// A path is marked just if it stands at its place.
    proof fn found(self, path: Seq<char>, at: int)
        requires
            0 <= at <= self.listed().len(),
            forall|k: int|
                0 <= k < at ==> !order::lex_le(
                    encode_utf8(path),
                    encode_utf8(#[trigger] self.listed()[k]),
                ),
            forall|k: int|
                at <= k < self.listed().len() ==> order::lex_le(
                    encode_utf8(path),
                    encode_utf8(#[trigger] self.listed()[k]),
                ),
            strictly_sorted(self.listed()),
        ensures
            self@.contains(path) <==> at < self.listed().len() && self.listed()[at] == path,
    {
        let all = self.listed();
        if all.contains(path) {
            let k = choose|k: int| 0 <= k < all.len() && all[k] == path;
            order::lex_reflexive(encode_utf8(path));
            if k > at {
                assert(order::lex_le(encode_utf8(path), encode_utf8(all[at])));
                assert(!order::lex_le(encode_utf8(all[k]), encode_utf8(all[at])));
            }
        }
    }

    /// Switches the mark for `path` over, and says whether it is marked now.
    pub fn toggle(&mut self, path: &str) -> (r: bool)
        ensures
            final(self)@ == toggled(old(self)@, path@),
            r == final(self)@.contains(path@),
    {
        let marked_before: bool = self.contains(path);
        let at: usize = self.place(path);
        proof {
            use_type_invariant(&*self);
        }
        let ghost was = self.listed();
        let ghost key = encode_utf8(path@);
        proof {
            self.found(path@, at as int);
        }
        let mut list: Vec<String> = Vec::new();
        std::mem::swap(&mut self.marked, &mut list);
        if marked_before {
            list.remove(at);
            let ghost now = text::texts(list@);
            proof {
                assert(now =~= was.remove(at as int));
                assert forall|s: Seq<char>| now.contains(s) <==> was.contains(s) && s != path@ by {
                    if was.contains(s) && s != path@ {
                        let k = choose|k: int| 0 <= k < was.len() && was[k] == s;
                        if k < at {
                            assert(now[k] == s);
                        } else {
                            assert(now[k - 1] == s);
                        }
                    }
                    if now.contains(s) {
                        let k = choose|k: int| 0 <= k < now.len() && now[k] == s;
                        let m = if k < at { k } else { k + 1 };
                        assert(was[m] == s);
                        if s == path@ {
                            order::lex_reflexive(key);
                            if k < at {
                                assert(!order::lex_le(key, encode_utf8(was[m])));
                            } else {
                                assert(!order::lex_le(
                                    encode_utf8(was[m]),
                                    encode_utf8(was[at as int]),
                                ));
                            }
                        }
                    }
                }
            }
        } else {
            list.insert(at, path.to_string());
            let ghost now = text::texts(list@);
            proof {
                assert(now =~= was.insert(at as int, path@));
                insert_in_place(was, path@, at as int);
                assert forall|s: Seq<char>| now.contains(s) <==> was.contains(s) || s == path@ by {
                    if was.contains(s) {
                        let k = choose|k: int| 0 <= k < was.len() && was[k] == s;
                        if k < at {
                            assert(now[k] == s);
                        } else {
                            assert(now[k + 1] == s);
                        }
                    }
                    if s == path@ {
                        assert(now[at as int] == s);
                    }
                }
            }
        }
        self.marked = list;
        assert(self@ =~= toggled(was.to_set(), path@));
        !marked_before
    }
}

/// Putting a name that is not there at its place keeps the names in order and
/// each once.
proof fn insert_in_place(all: Seq<Seq<char>>, path: Seq<char>, at: int)
    requires
        0 <= at <= all.len(),
        strictly_sorted(all),
        !all.contains(path),
        forall|k: int|
            0 <= k < at ==> !order::lex_le(encode_utf8(path), encode_utf8(#[trigger] all[k])),
        forall|k: int|
            at <= k < all.len() ==> order::lex_le(
                encode_utf8(path),
                encode_utf8(#[trigger] all[k]),
            ),
    ensures
        strictly_sorted(all.insert(at, path)),
{
    let now = all.insert(at, path);
    let key = encode_utf8(path);
    assert forall|i: int, j: int| 0 <= i < j < now.len() implies !order::lex_le(
        encode_utf8(#[trigger] now[j]),
        encode_utf8(#[trigger] now[i]),
    ) by {
        if i == at {
            let other = all[j - 1];
            assert(now[j] == other);
            if order::lex_le(encode_utf8(other), key) {
                order::lex_antisymmetric(encode_utf8(other), key);
                text::encoding_is_injective(other, path);
                assert(all.contains(path));
            }
        } else if j == at {
            assert(now[i] == all[i]);
        } else {
            let a = if i < at { i } else { i - 1 };
            let b = if j < at { j } else { j - 1 };
            assert(now[i] == all[a] && now[j] == all[b]);
        }
    }
}

/// Appending the next name of a sorted sequence, where it differs from the last
/// one kept, keeps the names in order and each once.
proof fn append_later(kept: Seq<Seq<char>>, sorted: Seq<Seq<char>>, i: int)
    requires
        0 <= i < sorted.len(),
        order::is_sorted(sorted, false),
        strictly_sorted(kept),
        kept.len() > 0 ==> i > 0 && kept.last() == sorted[i - 1] && kept.last() != sorted[i],
    ensures
        strictly_sorted(kept.push(sorted[i])),
{
    let next = sorted[i];
    let all = kept.push(next);
    assert forall|a: int, b: int| 0 <= a < b < all.len() implies !order::lex_le(
        encode_utf8(#[trigger] all[b]),
        encode_utf8(#[trigger] all[a]),
    ) by {
        if b < kept.len() {
            assert(all[a] == kept[a] && all[b] == kept[b]);
        } else {
            let last = kept.last();
            let ka = encode_utf8(kept[a]);
            let kl = encode_utf8(last);
            let kn = encode_utf8(next);
            assert(order::lex_le(
                order::sort_key(sorted[i - 1], false),
                order::sort_key(sorted[i], false),
            ));
            if order::lex_le(kn, ka) {
                if a < kept.len() - 1 {
                    assert(!order::lex_le(
                        encode_utf8(kept[kept.len() - 1]),
                        encode_utf8(kept[a]),
                    ));
                    order::lex_transitive(kl, kn, ka);
                } else {
                    order::lex_antisymmetric(kl, kn);
                    text::encoding_is_injective(last, next);
                }
            }
        }
    }
}

/// Sequences that are permutations of each other have the same members.
proof fn same_members(a: Seq<Seq<char>>, b: Seq<Seq<char>>)
    requires
        a.to_multiset() == b.to_multiset(),
    ensures
        forall|s: Seq<char>| a.contains(s) <==> b.contains(s),
{
    a.to_multiset_ensures();
    b.to_multiset_ensures();
    assert forall|s: Seq<char>| a.contains(s) <==> b.contains(s) by {
        assert(a.contains(s) <==> a.to_multiset().count(s) > 0);
        assert(b.contains(s) <==> b.to_multiset().count(s) > 0);
    }
}

// --- The server ---

/// What the handlers work on.
pub struct AppState {
    pub config: Config,
    pub downloads: DownloadState,
    /// For each configured directory the path it resolved to when the server
    /// started; none for one that could not be resolved.
    pub canonical_dirs: Vec<Option<CanonicalPath>>,
}

/// The contents of the state file for the given marks.
pub open spec fn state_file_text(marks: Seq<Seq<char>>) -> Seq<char> {
    "{\"marked\":"@ + json_list_text(marks) + "}"@
}

impl AppState {
    /// Whether there is one resolved path, or none, for each directory.
    pub open spec fn well_formed(self) -> bool {
        self.canonical_dirs@.len() == self.config.directories@.len()
    }

    /// The path that a directory resolved to; none if there is no such directory
    /// or it could not be resolved.
    pub open spec fn base_of(self, dir_idx: int) -> Option<Seq<Seq<u8>>> {
        if 0 <= dir_idx < self.canonical_dirs@.len() {
            match self.canonical_dirs@[dir_idx] {
                Some(base) => Some(base@),
                None => None,
            }
        } else {
            None
        }
    }

    /// The state of a server that has just started.
    pub fn new(
        config: Config,
        downloads: DownloadState,
        canonical_dirs: Vec<Option<CanonicalPath>>,
    ) -> (r: AppState)
        requires
            canonical_dirs@.len() == config.directories@.len(),
        ensures
            r.well_formed(),
            r.config == config,
            r.downloads == downloads,
            r.canonical_dirs == canonical_dirs,
    {
        AppState { config, downloads, canonical_dirs }
    }

    /// The path that a directory resolved to.
    pub fn base(&self, dir_idx: usize) -> (r: Option<&CanonicalPath>)
        ensures
            match r {
                Some(base) => self.base_of(dir_idx as int) == Some(base@),
                None => self.base_of(dir_idx as int) is None,
            },
    {
        if dir_idx < self.canonical_dirs.len() {
            self.canonical_dirs[dir_idx].as_ref()
        } else {
            None
        }
    }

    /// What the state file is to hold so that the marks outlive the server: the
    /// marked paths in order, each once, as the JSON object `{"marked":[..]}`.
    /// Loading the list from there gives the marks back.
    pub fn save_state(&self) -> (r: String)
        ensures
            r@ == state_file_text(self.downloads.listed()),
            strictly_sorted(self.downloads.listed()),
            loaded(Some(json_list_text(self.downloads.listed()))) == self.downloads@,
            r@.len() >= 11,
            r@.take(10) == "{\"marked\":"@,
            r@.last() == '}',
            loaded(Some(r@.subrange(10, r@.len() - 1))) == self.downloads@,
            marks_in(r@) matches Some(names) && names.no_duplicates() && forall|path: Seq<char>|
                names.contains(path) <==> self.downloads@.contains(path),
    {
        let mut out = "{\"marked\":".to_string();
        let list = write_json_list(self.downloads.names());
        out.append(list.as_str());
        out.append("}");
        proof {
            use_type_invariant(&self.downloads);
            reveal_strlit("{\"marked\":");
            reveal_strlit("}");
            assert(out@.take(10) =~= "{\"marked\":"@);
            assert(out@.subrange(10, out@.len() - 1) =~= list@);
            saved_marks_read_back(self.downloads.listed());
            saved_list_is_the_marks(self.downloads);
        }
        out
    }
}

// --- Laws ---

/// Switching a mark over twice leaves the marks as they were.
pub proof fn toggling_twice_changes_nothing(marks: Set<Seq<char>>, path: Seq<char>)
    ensures
        toggled(toggled(marks, path), path) == marks,
{
    assert(toggled(toggled(marks, path), path) =~= marks);
}

/// Switching one mark over leaves the others alone.
pub proof fn toggling_is_local(marks: Set<Seq<char>>, path: Seq<char>, other: Seq<char>)
    requires
        other != path,
    ensures
        toggled(marks, path).contains(other) == marks.contains(other),
        toggled(marks, path).contains(path) != marks.contains(path),
{
}

/// The saved list holds every mark, each once, and nothing else.
pub proof fn saved_list_is_the_marks(downloads: DownloadState)
    requires
        strictly_sorted(downloads.listed()),
    ensures
        downloads.listed().no_duplicates(),
        forall|path: Seq<char>| downloads.listed().contains(path) <==> downloads@.contains(path),
{
    let names = downloads.listed();
    assert forall|i: int, j: int|
        0 <= i < names.len() && 0 <= j < names.len() && i != j implies names[i] != names[j] by {
        let a = if i < j { i } else { j };
        let b = if i < j { j } else { i };
        if names[a] == names[b] {
            order::lex_reflexive(encode_utf8(names[a]));
            assert(!order::lex_le(encode_utf8(names[b]), encode_utf8(names[a])));
        }
    }
}

/// The value of a hexadecimal digit in lower case.
pub open spec fn hex_digit_value(c: char) -> int {
    if '0' <= c <= '9' {
        c as int - '0' as int
    } else {
        c as int - 'a' as int + 10
    }
}

/// The character that a JSON string holds first, and how many characters it is
/// written with.
pub open spec fn json_unit(t: Seq<char>) -> Option<(char, int)> {
    if t.len() == 0 || t[0] == '"' {
        None
    } else if t[0] != '\\' {
        Some((t[0], 1))
    } else if t.len() >= 6 && t[1] == 'u' {
        Some(
            (
                (4096 * hex_digit_value(t[2]) + 256 * hex_digit_value(t[3]) + 16 * hex_digit_value(
                    t[4],
                ) + hex_digit_value(t[5])) as char,
                6,
            ),
        )
    } else if t.len() < 2 {
        None
    } else if t[1] == '"' || t[1] == '\\' || t[1] == '/' {
        Some((t[1], 2))
    } else if t[1] == 'b' {
        Some((8u8 as char, 2))
    } else if t[1] == 't' {
        Some((9u8 as char, 2))
    } else if t[1] == 'n' {
        Some((10u8 as char, 2))
    } else if t[1] == 'f' {
        Some((12u8 as char, 2))
    } else if t[1] == 'r' {
        Some((13u8 as char, 2))
    } else {
        None
    }
}

/// The text of a JSON string, read from behind its opening quote, and what follows
/// its closing one.
pub open spec fn json_rest_of_string(t: Seq<char>) -> Option<(Seq<char>, Seq<char>)>
    decreases t.len(),
{
    if t.len() > 0 && t[0] == '"' {
        Some((Seq::empty(), t.skip(1)))
    } else {
        match json_unit(t) {
            Some((c, n)) => if 0 < n <= t.len() {
                match json_rest_of_string(t.skip(n)) {
                    Some((s, rest)) => Some((seq![c] + s, rest)),
                    None => None,
                }
            } else {
                None
            },
            None => None,
        }
    }
}

/// The strings of a JSON list that has some, read from its first string, and what
/// follows its closing bracket.
pub open spec fn json_strings(t: Seq<char>) -> Option<(Seq<Seq<char>>, Seq<char>)>
    decreases t.len(),
{
    if t.len() == 0 || t[0] != '"' {
        None
    } else {
        match json_rest_of_string(t.skip(1)) {
            Some((s, rest)) => if rest.len() == 0 || rest.len() >= t.len() {
                None
            } else if rest[0] == ']' {
                Some((seq![s], rest.skip(1)))
            } else if rest[0] == ',' {
                match json_strings(rest.skip(1)) {
                    Some((more, end)) => Some((seq![s] + more, end)),
                    None => None,
                }
            } else {
                None
            },
            None => None,
        }
    }
}

/// The marks that a state file holds, as a reader of JSON finds them: the strings of
/// the list under `marked`; none where the text is not of that form.
pub open spec fn marks_in(file: Seq<char>) -> Option<Seq<Seq<char>>> {
    if file.len() < 12 || file.take(11) != "{\"marked\":["@ {
        None
    } else {
        let list = file.skip(11);
        if list == "]}"@ {
            Some(Seq::empty())
        } else {
            match json_strings(list) {
                Some((names, rest)) => if rest == "}"@ {
                    Some(names)
                } else {
                    None
                },
                None => None,
            }
        }
    }
}

/// A character that is written in a JSON string is read back.
proof fn json_char_reads_back(c: char, tail: Seq<char>)
    ensures
        json_char(c).len() > 0,
        json_char(c)[0] != '"',
        json_unit(json_char(c) + tail) == Some((c, json_char(c).len() as int)),
{
    let t = json_char(c) + tail;
    let n = c as int;
    assert forall|i: int| 0 <= i < json_char(c).len() implies t[i] == json_char(c)[i] by {}
    if json_char(c).len() == 6 {
        assert(hex_digit_value(lower_hex(n / 16)) == n / 16);
        assert(hex_digit_value(lower_hex(n % 16)) == n % 16);
        assert(hex_digit_value('0') == 0);
        assert(16 * (n / 16) + n % 16 == n);
        assert(t[2] == '0' && t[3] == '0');
        assert(t[4] == lower_hex(n / 16) && t[5] == lower_hex(n % 16));
    }
}

/// A string that is written in JSON is read back.
proof fn json_string_reads_back(s: Seq<char>, tail: Seq<char>)
    ensures
        json_rest_of_string(text::expand(s, |c: char| json_char(c)) + seq!['"'] + tail) == Some(
            (s, tail),
        ),
    decreases s.len(),
{
    let g = |c: char| json_char(c);
    let t = text::expand(s, g) + seq!['"'] + tail;
    if s.len() == 0 {
        assert(t[0] == '"');
        assert(t.skip(1) =~= tail);
        assert(s =~= Seq::empty());
    } else {
        let rest = s.drop_first();
        let piece = json_char(s[0]);
        let after = text::expand(rest, g) + seq!['"'] + tail;
        text::expand_from_first(s, g);
        json_string_reads_back(rest, tail);
        assert(t =~= piece + after);
        json_char_reads_back(s[0], after);
        assert(t[0] == piece[0]);
        assert(t.skip(piece.len() as int) =~= after);
        assert(seq![s[0]] + rest =~= s);
    }
}

/// A list of strings that is written in JSON is read back.
proof fn json_strings_read_back(names: Seq<Seq<char>>, tail: Seq<char>)
    requires
        names.len() > 0,
    ensures
        json_strings(
            text::join(names.map_values(|s: Seq<char>| json_string(s)), ',') + seq![']'] + tail,
        ) == Some((names, tail)),
    decreases names.len(),
{
    let f = |s: Seq<char>| json_string(s);
    let g = |c: char| json_char(c);
    let written = names.map_values(f);
    let t = text::join(written, ',') + seq![']'] + tail;
    let s = names[0];
    let more = names.drop_first();
    let body = text::expand(s, g);
    if names.len() == 1 {
        let after = seq![']'] + tail;
        assert(written[0] == json_string(s));
        assert(t.skip(1) =~= body + seq!['"'] + after);
        assert(t[0] == '"');
        json_string_reads_back(s, after);
        assert(after.skip(1) =~= tail);
        assert(names =~= seq![s]);
    } else {
        let rest = more.map_values(f);
        let follow = text::join(rest, ',') + seq![']'] + tail;
        let after = seq![','] + follow;
        assert(written =~= seq![json_string(s)] + rest);
        text::join_of_concatenation(seq![json_string(s)], rest, ',');
        text::join_of_one(json_string(s), ',');
        assert(t =~= json_string(s).push(',') + follow);
        assert(t.skip(1) =~= body + seq!['"'] + after);
        assert(t[0] == '"');
        json_string_reads_back(s, after);
        assert(after.skip(1) =~= follow);
        json_strings_read_back(more, tail);
        assert(seq![s] + more =~= names);
    }
}

/// Every mark that is saved is in the state file: whoever reads it finds the marks,
/// all of them, however many there are, and whatever characters are in them.
pub proof fn saved_marks_read_back(marks: Seq<Seq<char>>)
    ensures
        marks_in(state_file_text(marks)) == Some(marks),
{
    let t = state_file_text(marks);
    let f = |s: Seq<char>| json_string(s);
    let inner = text::join(marks.map_values(f), ',');
    reveal_strlit("{\"marked\":");
    reveal_strlit("{\"marked\":[");
    reveal_strlit("}");
    reveal_strlit("]}");
    assert("{\"marked\":["@ =~= "{\"marked\":"@ + seq!['[']);
    assert(t =~= "{\"marked\":["@ + (inner + seq![']'] + "}"@));
    assert(t.take(11) =~= "{\"marked\":["@);
    assert(t.skip(11) =~= inner + seq![']'] + "}"@);
    if marks.len() == 0 {
        assert(marks.map_values(f) =~= Seq::empty());
        assert(t.skip(11) =~= "]}"@);
        assert(marks =~= Seq::empty());
    } else {
        json_strings_read_back(marks, "}"@);
        if t.skip(11) == "]}"@ {
            assert(t.skip(11)[0] == ']');
        }
    }
}

/// Different marks make different state files.
pub proof fn state_files_tell_marks_apart(a: Seq<Seq<char>>, b: Seq<Seq<char>>)
    requires
        state_file_text(a) == state_file_text(b),
    ensures
        a == b,
{
    saved_marks_read_back(a);
    saved_marks_read_back(b);
}

/// Restoring a saved list marks what is in the list, and nothing else; where nothing
/// was saved, nothing is marked.
pub proof fn restored_marks_are_those_saved(saved: Vec<String>, path: Seq<char>)
    ensures
        restored(text::texts_option(Some(saved))).contains(path) <==> exists|i: int|
            0 <= i < saved@.len() && #[trigger] saved@[i]@ == path,
        !restored(text::texts_option(None)).contains(path),
{
    let names = text::texts(saved@);
    if names.contains(path) {
        let k = choose|k: int| 0 <= k < names.len() && names[k] == path;
        assert(saved@[k]@ == path);
    }
    if exists|i: int| 0 <= i < saved@.len() && #[trigger] saved@[i]@ == path {
        let i = choose|i: int| 0 <= i < saved@.len() && #[trigger] saved@[i]@ == path;
        assert(names[i] == path);
    }
}

/// Loading the JSON text of a list marks what `serde_json` reads in it; a text that
/// it cannot read, or no text, marks nothing.
pub proof fn loaded_marks_are_those_read(list: &str, path: Seq<char>)
    ensures
        loaded(text::str_option(Some(list))).contains(path) <==> (json_list_in(list@) matches Some(
            names,
        ) && names.contains(path)),
        !loaded(text::str_option(None)).contains(path),
{
}

/// The marks are in order, each once: of two, the one that comes first is shorter and
/// the beginning of the other, or has the lesser byte where they differ first.
pub proof fn marks_are_kept_in_order(names: Seq<Seq<char>>, i: int, j: int)
    requires
        strictly_sorted(names),
        0 <= i < j < names.len(),
    ensures
        names[i] != names[j],
        order::comes_first(encode_utf8(names[i]), encode_utf8(names[j])),
{
    let a = encode_utf8(names[i]);
    let b = encode_utf8(names[j]);
    assert(!order::lex_le(b, a));
    order::lex_total(a, b);
    order::lex_by_first_difference(a, b);
    order::lex_reflexive(a);
}

/// A directory that is configured and was resolved has its path for a base; any
/// other number has none.
pub proof fn bases_are_the_resolved_directories(app: AppState, dir_idx: int)
    ensures
        0 <= dir_idx < app.canonical_dirs@.len() ==> match app.canonical_dirs@[dir_idx] {
            Some(p) => app.base_of(dir_idx) == Some(p@),
            None => app.base_of(dir_idx) is None,
        },
        dir_idx < 0 || dir_idx >= app.canonical_dirs@.len() ==> app.base_of(dir_idx) is None,
{
}

} // verus!
