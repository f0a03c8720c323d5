//! Serving one image: finding it, sending it, and marking it.

use vstd::prelude::*;
use vstd::utf8::*;

use crate::media;
use crate::media::mime_for_path;
use crate::path;
use crate::path::{CanonicalPath, FilePath};
use crate::reply;
use crate::reply::{BodyView, Reply, ReplyBody, ReplyView};
use crate::state;
use crate::state::AppState;
use crate::text;

verus! {

// --- Finding an image ---

/// A file in a configured directory.
pub struct ImageFile {
    /// Where it is.
    pub full: CanonicalPath,
    /// The text of its path below the configured directory.
    pub relative: String,
}

/// A request for a file below a configured directory.
pub struct ImageLookup {
    /// What the configured directory resolved to.
    pub base: CanonicalPath,
    /// The path that is asked for.
    pub sub_path: String,
}

/// What is to be done next to find the file.
pub enum LookupStep {
    /// Resolve this path on disk.
    Canonicalize(FilePath),
    /// Find out whether there is a file at this path.
    CheckFile(CanonicalPath),
    /// There is no such file to be served.
    NotFound,
    /// The file.
    Found(ImageFile),
}

/// What came of it.
pub enum LookupEvent {
    /// What the path resolved to; none if it did not.
    Canonical(Option<CanonicalPath>),
    /// Whether there is a file.
    File(bool),
}

/// What is to be done next, in specifications.
pub enum LookupStepView {
    Canonicalize(Seq<u8>),
    CheckFile(Seq<Seq<u8>>),
    NotFound,
    Found(Seq<Seq<u8>>, Seq<char>),
}

impl View for LookupStep {
    type V = LookupStepView;

    open spec fn view(&self) -> LookupStepView {
        match self {
            LookupStep::Canonicalize(p) => LookupStepView::Canonicalize(p@),
            LookupStep::CheckFile(p) => LookupStepView::CheckFile(p@),
            LookupStep::NotFound => LookupStepView::NotFound,
            LookupStep::Found(f) => LookupStepView::Found(f.full@, f.relative@),
        }
    }
}

/// Whether an event is the outcome of a step.
pub open spec fn answers(step: LookupStepView, event: LookupEvent) -> bool {
    match step {
        LookupStepView::Canonicalize(_) => event is Canonical,
        LookupStepView::CheckFile(_) => event is File,
        _ => false,
    }
}

impl ImageLookup {
    /// The first step.
    pub open spec fn first_step(self) -> LookupStepView {
        LookupStepView::Canonicalize(
            path::joined(path::rendered(self.base@), encode_utf8(self.sub_path@)),
        )
    }

    /// What follows once `event` came of `step`.
    pub open spec fn next_step(self, step: LookupStepView, event: LookupEvent) -> LookupStepView {
        match (step, event) {
            (LookupStepView::Canonicalize(_), LookupEvent::Canonical(Some(full))) => if path::within(
                full@,
                self.base@,
            ) {
                LookupStepView::CheckFile(full@)
            } else {
                LookupStepView::NotFound
            },
            (LookupStepView::CheckFile(full), LookupEvent::File(true)) => if path::within(
                full,
                self.base@,
            ) {
                LookupStepView::Found(full, path::lossy_utf8(path::relative_to(full, self.base@)))
            } else {
                LookupStepView::NotFound
            },
            _ => LookupStepView::NotFound,
        }
    }

    /// The first step.
    pub fn start(&self) -> (r: LookupStep)
        ensures
            r@ == self.first_step(),
    {
        LookupStep::Canonicalize(self.base.path().join(self.sub_path.as_str()))
    }

    /// The step that follows once `event` came of `step`.
    pub fn next(&self, step: LookupStep, event: LookupEvent) -> (r: LookupStep)
        requires
            answers(step@, event),
        ensures
            r@ == self.next_step(step@, event),
    {
        match (step, event) {
            (LookupStep::Canonicalize(_), LookupEvent::Canonical(Some(full))) => {
                if full.starts_with(&self.base) {
                    LookupStep::CheckFile(full)
                } else {
                    LookupStep::NotFound
                }
            },
            (LookupStep::CheckFile(full), LookupEvent::File(true)) => {
                match full.strip_prefix(&self.base) {
                    Some(rel) => {
                        let relative = rel.to_text();
                        LookupStep::Found(ImageFile { full, relative })
                    },
                    None => LookupStep::NotFound,
                }
            },
            _ => LookupStep::NotFound,
        }
    }
}

/// Begins to find the file at `sub_path` below a configured directory; nothing
/// is there to be found if there is no such directory or it could not be
/// resolved.
pub fn resolve_image_path(app: &AppState, dir_idx: usize, sub_path: &str) -> (r: Option<ImageLookup>)
    ensures
        match r {
            Some(lookup) => {
                &&& app.base_of(dir_idx as int) == Some(lookup.base@)
                &&& lookup.sub_path@ == sub_path@
            },
            None => app.base_of(dir_idx as int) is None,
        },
{
    match app.base(dir_idx) {
        Some(base) => Some(ImageLookup { base: base.clone(), sub_path: sub_path.to_string() }),
        None => None,
    }
}

// --- Sending a file ---

/// What opening a file gave.
pub enum FileProbe {
    /// It could not be opened.
    NotOpened,
    /// It was opened, but its length could not be found out.
    NoMetadata,
    /// It was opened and has this many bytes.
    Length(u64),
}

/// The name under which a file is to be saved.
pub open spec fn save_name(p: Seq<u8>) -> Seq<char> {
    match path::file_name_of(p) {
        Some(name) => path::lossy_utf8(name),
        None => Seq::empty(),
    }
}

/// The headers of an answer with a file.
pub open spec fn file_headers(p: Seq<u8>, len: u64, download: bool) -> Seq<(Seq<char>, Seq<char>)> {
    let common = seq![
        ("content-type"@, media::mime_of_path(p)),
        ("content-length"@, text::decimal(len as nat)),
        ("cache-control"@, "public, max-age=3600"@),
    ];
    if download {
        common.push(
            ("content-disposition"@, "attachment; filename=\""@ + save_name(p) + "\""@),
        )
    } else {
        common
    }
}

/// The answer with the file at `p`.
pub open spec fn file_reply(p: Seq<u8>, probe: FileProbe, download: bool) -> ReplyView {
    match probe {
        FileProbe::NotOpened => reply::status_reply(404),
        FileProbe::NoMetadata => reply::status_reply(500),
        FileProbe::Length(len) => ReplyView {
            status: 200,
            headers: file_headers(p, len, download),
            body: BodyView::File,
        },
    }
}

/// Answers with the contents of the file at `path`, to be saved under its name
/// if `download`.
pub fn stream_file(path: &FilePath, probe: FileProbe, download: bool) -> (r: Reply)
    ensures
        r@ == file_reply(path@, probe, download),
{
    let len: u64 = match probe {
        FileProbe::NotOpened => {
            return Reply::empty(404);
        },
        FileProbe::NoMetadata => {
            return Reply::empty(500);
        },
        FileProbe::Length(len) => len,
    };
    let mut headers: Vec<(&'static str, String)> = Vec::new();
    headers.push(("content-type", mime_for_path(path).to_string()));
    let mut digits: String = String::new();
    text::push_decimal(&mut digits, len);
    assert(digits@ =~= text::decimal(len as nat));
    headers.push(("content-length", digits));
    headers.push(("cache-control", "public, max-age=3600".to_string()));
    if download {
        let name = match path.file_name() {
            Some(name) => path::lossy_text(name.as_slice()),
            None => String::new(),
        };
        let mut value: String = "attachment; filename=\"".to_string();
        value.append(name.as_str());
        value.append("\"");
        headers.push(("content-disposition", value));
    }
    let r = Reply { status: 200, headers, body: ReplyBody::File };
    assert(r@.headers =~= file_headers(path@, len, download));
    assert(r@ =~= file_reply(path@, probe, download));
    r
}

/// The answer to a request for an image, as found.
pub open spec fn image_reply(
    found: Option<ImageFile>,
    probe: FileProbe,
    download: bool,
) -> ReplyView {
    match found {
        Some(f) => file_reply(path::rendered(f.full@), probe, download),
        None => reply::status_reply(404),
    }
}

/// Answers a request to see an image in full.
pub fn serve_image(found: &Option<ImageFile>, probe: FileProbe) -> (r: Reply)
    ensures
        r@ == image_reply(*found, probe, false),
{
    match found {
        Some(f) => stream_file(&f.full.path(), probe, false),
        None => Reply::empty(404),
    }
}

/// Answers a request to save an image.
pub fn serve_download(found: &Option<ImageFile>, probe: FileProbe) -> (r: Reply)
    ensures
        r@ == image_reply(*found, probe, true),
{
    match found {
        Some(f) => stream_file(&f.full.path(), probe, true),
        None => Reply::empty(404),
    }
}

// --- Marking an image ---

/// The answer that says whether an image is marked now.
pub open spec fn mark_reply(marked: bool) -> ReplyView {
    ReplyView {
        status: 200,
        headers: seq![("content-type"@, "application/json"@)],
        body: BodyView::Text(
            if marked {
                "{\"marked\":true}"@
            } else {
                "{\"marked\":false}"@
            },
        ),
    }
}

/// What an image is marked by: the text of its path.
pub open spec fn image_key(full: Seq<Seq<u8>>) -> Seq<char> {
    path::lossy_utf8(path::rendered(full))
}

/// Answers a request to switch the mark of an image over.
pub fn toggle_mark(app: &mut AppState, found: &Option<ImageFile>) -> (r: Reply)
    ensures
        match *found {
            Some(f) => {
                let key = image_key(f.full@);
                &&& final(app).downloads@ == state::toggled(old(app).downloads@, key)
                &&& final(app).config == old(app).config
                &&& final(app).canonical_dirs == old(app).canonical_dirs
                &&& r@ == mark_reply(final(app).downloads@.contains(key))
            },
            None => *final(app) == *old(app) && r@ == reply::status_reply(404),
        },
{
    match found {
        Some(f) => {
            let key = f.full.path().to_text();
            let marked = app.downloads.toggle(key.as_str());
            let mut headers: Vec<(&'static str, String)> = Vec::new();
            headers.push(("content-type", "application/json".to_string()));
            let body = if marked {
                "{\"marked\":true}".to_string()
            } else {
                "{\"marked\":false}".to_string()
            };
            let r = Reply { status: 200, headers, body: ReplyBody::Text(body) };
            assert(r@.headers =~= mark_reply(marked).headers);
            assert(r@ =~= mark_reply(marked));
            r
        },
        None => Reply::empty(404),
    }
}

// --- Laws ---

/// Whether a step looks at nothing outside `base` and gives nothing from there.
pub open spec fn stays_inside(step: LookupStepView, base: Seq<Seq<u8>>) -> bool {
    match step {
        LookupStepView::CheckFile(full) => path::within(full, base),
        LookupStepView::Found(full, _) => path::within(full, base),
        _ => true,
    }
}

/// Whatever the disk answers, the file that is found is the configured directory
/// itself or lies below it, and no other is looked at.
pub proof fn lookup_stays_inside(lookup: ImageLookup, first: LookupEvent, second: LookupEvent)
    ensures
        ({
            let one = lookup.next_step(lookup.first_step(), first);
            let two = lookup.next_step(one, second);
            &&& stays_inside(lookup.first_step(), lookup.base@)
            &&& stays_inside(one, lookup.base@)
            &&& stays_inside(two, lookup.base@)
            &&& !(two is Canonicalize) && !(two is CheckFile)
        }),
{
}

/// A path that resolves outside the configured directory is not found, whatever
/// lies there.
pub proof fn outside_is_not_found(lookup: ImageLookup, full: CanonicalPath)
    requires
        !path::within(full@, lookup.base@),
    ensures
        lookup.next_step(lookup.first_step(), LookupEvent::Canonical(Some(full)))
            == LookupStepView::NotFound,
{
}

/// A file in the configured directory is found.
pub proof fn files_inside_are_found(lookup: ImageLookup, full: CanonicalPath)
    requires
        path::within(full@, lookup.base@),
    ensures
        ({
            let one = lookup.next_step(
                lookup.first_step(),
                LookupEvent::Canonical(Some(full)),
            );
            lookup.next_step(one, LookupEvent::File(true)) == LookupStepView::Found(
                full@,
                path::lossy_utf8(path::relative_to(full@, lookup.base@)),
            )
        }),
{
}

/// The first look is at the path that is asked for, taken from the configured
/// directory.
pub proof fn lookup_begins_at_the_path(lookup: ImageLookup, first: LookupStep)
    requires
        first@ == lookup.first_step(),
    ensures
        first matches LookupStep::Canonicalize(p) && p@ == path::joined(
            path::rendered(lookup.base@),
            encode_utf8(lookup.sub_path@),
        ),
{
}

/// What comes of each look. A path that resolves to the configured directory or
/// below it is looked at, and where there is a file it is the one that was asked
/// for; everything else is not found.
pub proof fn lookup_finds_what_is_there(
    lookup: ImageLookup,
    asked: Seq<u8>,
    full: CanonicalPath,
    looked: Seq<Seq<u8>>,
    next: LookupStep,
    last: LookupStep,
)
    requires
        next@ == lookup.next_step(
            LookupStepView::Canonicalize(asked),
            LookupEvent::Canonical(Some(full)),
        ),
        last@ == lookup.next_step(LookupStepView::CheckFile(looked), LookupEvent::File(true)),
    ensures
        ({
            let n = lookup.base@.len();
            let inside = |parts: Seq<Seq<u8>>|
                parts.len() >= n && forall|i: int| 0 <= i < n ==> #[trigger] parts[i] == lookup.base@[i];
            &&& inside(full@) ==> (next matches LookupStep::CheckFile(p) && p@ == full@)
            &&& !inside(full@) ==> next is NotFound
            &&& inside(looked) ==> (last matches LookupStep::Found(f) && f.full@ == looked
                && f.relative@ == path::lossy_utf8(
                text::join(looked.skip(n as int), '/' as u8),
            ))
            &&& !inside(looked) ==> last is NotFound
            &&& lookup.next_step(
                LookupStepView::Canonicalize(asked),
                LookupEvent::Canonical(None),
            ) is NotFound
            &&& lookup.next_step(
                LookupStepView::CheckFile(looked),
                LookupEvent::File(false),
            ) is NotFound
        }),
{
    let n = lookup.base@.len();
    if full@.len() >= n && forall|i: int| 0 <= i < n ==> #[trigger] full@[i] == lookup.base@[i] {
        assert(lookup.base@ =~= full@.subrange(0, n as int));
    }
    if looked.len() >= n && forall|i: int|
        0 <= i < n ==> #[trigger] looked[i] == lookup.base@[i] {
        assert(lookup.base@ =~= looked.subrange(0, n as int));
    }
}

/// A download is answered as a view is, with one header more. It says that the file
/// is to be saved under the last component of its path, whatever the file is. The
/// answer to a view has no such header.
pub proof fn downloads_are_saved_under_their_names(
    dir: Seq<u8>,
    name: Seq<u8>,
    len: u64,
    view: Reply,
    download: Reply,
)
    requires
        path::is_name(name),
        view@ == file_reply(dir.push('/' as u8) + name, FileProbe::Length(len), false),
        download@ == file_reply(dir.push('/' as u8) + name, FileProbe::Length(len), true),
    ensures
        ({
            let n = view.headers@.len();
            let added = download.headers@.last();
            &&& download.status == view.status
            &&& download.body == view.body
            &&& download.headers@.len() == n + 1
            &&& forall|i: int|
                0 <= i < n ==> #[trigger] download.headers@[i].0@ == view.headers@[i].0@
                    && download.headers@[i].1@ == view.headers@[i].1@
            &&& forall|i: int|
                0 <= i < n ==> (#[trigger] view.headers@[i]).0@ != "content-disposition"@
            &&& added.0@ == "content-disposition"@
            &&& added.1@ == "attachment; filename=\""@ + path::lossy_utf8(name) + "\""@
        }),
{
    let p = dir.push('/' as u8) + name;
    path::file_name_in_directory(dir, name);
    reveal_strlit("content-disposition");
    reveal_strlit("content-type");
    reveal_strlit("content-length");
    reveal_strlit("cache-control");
    reply::answers_hold_what_they_say(view);
    reply::answers_hold_what_they_say(download);
    let v = file_headers(p, len, false);
    assert(view@.headers == v);
    assert(download@.headers == file_headers(p, len, true));
    assert(v[0].0.len() == 12 && v[1].0.len() == 14 && v[2].0.len() == 13);
    assert(download@.headers[3].0 == "content-disposition"@);
}

/// Every download says under which name the file is to be saved: the last component
/// of its path, or none where the path has no such component; and no view does.
pub proof fn every_download_is_an_attachment(p: Seq<u8>, len: u64, view: Reply, download: Reply)
    requires
        view@ == file_reply(p, FileProbe::Length(len), false),
        download@ == file_reply(p, FileProbe::Length(len), true),
    ensures
        view.status == 200 && download.status == 200,
        view.body is File && download.body is File,
        download@.headers == view@.headers.push(
            (
                "content-disposition"@,
                "attachment; filename=\""@ + (match path::file_name_of(p) {
                    Some(name) => path::lossy_utf8(name),
                    None => Seq::empty(),
                }) + "\""@,
            ),
        ),
        forall|i: int|
            0 <= i < view@.headers.len() ==> (#[trigger] view@.headers[i]).0
                != "content-disposition"@,
{
    reveal_strlit("content-disposition");
    reveal_strlit("content-type");
    reveal_strlit("content-length");
    reveal_strlit("cache-control");
    reply::answers_hold_what_they_say(view);
    reply::answers_hold_what_they_say(download);
    let v = file_headers(p, len, false);
    assert(v[0].0.len() == 12 && v[1].0.len() == 14 && v[2].0.len() == 13);
}

/// A file that was opened is sent: its length in decimal, its media type, and that
/// it may be kept for an hour. A file that was not opened is not found, and one
/// whose length is not known is an error; neither answer has anything else.
pub proof fn files_are_sent(p: Seq<u8>, probe: FileProbe, download: bool, r: Reply)
    requires
        r@ == file_reply(p, probe, download),
    ensures
        match probe {
            FileProbe::NotOpened => r.status == 404 && r.headers@.len() == 0 && r.body is Empty,
            FileProbe::NoMetadata => r.status == 500 && r.headers@.len() == 0 && r.body is Empty,
            FileProbe::Length(len) => {
                &&& r.status == 200
                &&& r.body is File
                &&& r.headers@.len() == (if download {
                    4int
                } else {
                    3int
                })
                &&& r.headers@[0].0@ == "content-type"@
                &&& r.headers@[0].1@ == media::mime_of_path(p)
                &&& r.headers@[1].0@ == "content-length"@
                &&& text::decimal_value(r.headers@[1].1@) == len
                &&& forall|i: int|
                    0 <= i < r.headers@[1].1@.len() ==> '0' <= #[trigger] r.headers@[1].1@[i]
                        <= '9'
                &&& r.headers@[2].0@ == "cache-control"@
                &&& r.headers@[2].1@ == "public, max-age=3600"@
            },
        },
{
    reply::answers_hold_what_they_say(r);
    if let FileProbe::Length(len) = probe {
        text::decimal_reads_back(len as nat);
        text::decimal_is_digits(len as nat);
        let v = file_headers(p, len, download);
        assert(r@.headers == v);
        assert(v[0].0 == "content-type"@ && v[1].0 == "content-length"@ && v[2].0
            == "cache-control"@);
    }
}

/// An image that was found is sent from the place where it was found, to be seen or
/// to be saved as asked; one that was not found is answered so.
pub proof fn images_are_sent_from_their_place(
    found: ImageFile,
    probe: FileProbe,
    download: bool,
    sent: Reply,
    missed: Reply,
)
    requires
        sent@ == image_reply(Some(found), probe, download),
        missed@ == image_reply(None, probe, download),
    ensures
        sent@ == file_reply(
            seq!['/' as u8] + text::join(found.full@, '/' as u8),
            probe,
            download,
        ),
        missed.status == 404 && missed.headers@.len() == 0 && missed.body is Empty,
{
    reply::answers_hold_what_they_say(missed);
}

/// The answer to switching a mark over says in JSON whether there is one now.
pub proof fn marks_are_answered(marked: bool, r: Reply)
    requires
        r@ == mark_reply(marked),
    ensures
        r.status == 200,
        r.headers@.len() == 1,
        r.headers@[0].0@ == "content-type"@,
        r.headers@[0].1@ == "application/json"@,
        r.body matches ReplyBody::Text(t) && t@ == "{\"marked\":"@ + (if marked {
            "true"@
        } else {
            "false"@
        }) + "}"@,
{
    reply::answers_hold_what_they_say(r);
    assert(r@.headers[0].0 == "content-type"@);
    reveal_strlit("{\"marked\":true}");
    reveal_strlit("{\"marked\":false}");
    reveal_strlit("{\"marked\":");
    reveal_strlit("true");
    reveal_strlit("false");
    reveal_strlit("}");
    assert("{\"marked\":"@ + "true"@ + "}"@ =~= "{\"marked\":true}"@);
    assert("{\"marked\":"@ + "false"@ + "}"@ =~= "{\"marked\":false}"@);
}

/// An image is marked by the text of its whole path.
pub proof fn image_keys_are_paths(full: Seq<Seq<u8>>)
    ensures
        image_key(full) == path::lossy_utf8(seq!['/' as u8] + text::join(full, '/' as u8)),
{
}

/// Each step but the last takes the outcomes of its own kind, whatever they are, and
/// no others.
pub proof fn steps_take_their_outcomes(step: LookupStep, event: LookupEvent)
    ensures
        answers(step@, event) <==> {
            ||| step is Canonicalize && event is Canonical
            ||| step is CheckFile && event is File
        },
{
}

} // verus!
