//! Browsing a directory: which directory a request may see, what of it is
//! listed, and the page that shows it.

use vstd::prelude::*;
use vstd::utf8::*;

use crate::escape;
use crate::escape::{simple_hash, url_encode, HtmlEsc, JsEsc, UrlEnc};
use crate::html;
use crate::html::{error_page, page, FOLDER_ICON, JS};
use crate::media;
use crate::order;
use crate::path;
use crate::path::{CanonicalPath, FilePath};
use crate::reply;
use crate::reply::Reply;
use crate::serve;
use crate::state;
use crate::state::{AppState, DownloadState};
use crate::text;

verus! {

// --- What is listed ---

/// What a directory entry is, symbolic links not followed.
pub enum EntryKind {
    Directory,
    File,
    Other,
}

/// A directory entry: its name, and what it is, if that could be found out.
pub struct DirEntry {
    pub name: Vec<u8>,
    pub kind: Option<EntryKind>,
}

/// What is shown of a directory.
pub struct Listing {
    pub subdirs: Vec<String>,
    pub images: Vec<String>,
}

/// Whether a name is that of a hidden file.
pub open spec fn is_hidden(name: Seq<char>) -> bool {
    name.len() > 0 && name[0] == '.'
}

/// Whether an entry is listed as a subdirectory.
pub open spec fn lists_subdir(e: DirEntry) -> bool {
    !is_hidden(path::lossy_utf8(e.name@)) && e.kind == Some(EntryKind::Directory)
}

/// Whether an entry is listed as an image.
pub open spec fn lists_image(e: DirEntry) -> bool {
    &&& !is_hidden(path::lossy_utf8(e.name@))
    &&& e.kind == Some(EntryKind::File)
    &&& media::is_image_name(path::lossy_utf8(e.name@))
}

/// The names of the entries that are listed as subdirectories.
pub open spec fn subdir_names(entries: Seq<DirEntry>) -> Seq<Seq<char>>
    decreases entries.len(),
{
    if entries.len() == 0 {
        Seq::empty()
    } else {
        let names = subdir_names(entries.drop_last());
        if lists_subdir(entries.last()) {
            names.push(path::lossy_utf8(entries.last().name@))
        } else {
            names
        }
    }
}

/// The names of the entries that are listed as images.
pub open spec fn image_names(entries: Seq<DirEntry>) -> Seq<Seq<char>>
    decreases entries.len(),
{
    if entries.len() == 0 {
        Seq::empty()
    } else {
        let names = image_names(entries.drop_last());
        if lists_image(entries.last()) {
            names.push(path::lossy_utf8(entries.last().name@))
        } else {
            names
        }
    }
}

/// Whether `names` are the names `found`, sorted without regard to the case of
/// ASCII letters.
pub open spec fn is_ordered_list(names: Seq<Seq<char>>, found: Seq<Seq<char>>) -> bool {
    order::is_sorted(names, true) && names.to_multiset() == found.to_multiset()
}

/// Whether `subdirs` and `images` are what is shown of the given entries.
pub open spec fn is_listing(
    entries: Seq<DirEntry>,
    subdirs: Seq<Seq<char>>,
    images: Seq<Seq<char>>,
) -> bool {
    is_ordered_list(subdirs, subdir_names(entries)) && is_ordered_list(images, image_names(entries))
}

/// Whether a name is that of a hidden file.
fn hidden(name: &str) -> (r: bool)
    ensures
        r == is_hidden(name@),
{
    if name.is_empty() {
        false
    } else {
        name.get_char(0) == '.'
    }
}

/// What is shown of the given entries.
pub fn list_entries(entries: &Vec<DirEntry>) -> (r: Listing)
    ensures
        is_listing(entries@, text::texts(r.subdirs@), text::texts(r.images@)),
{
    let mut subdirs: Vec<String> = Vec::new();
    let mut images: Vec<String> = Vec::new();
    assert(text::texts(subdirs@) =~= Seq::empty());
    assert(text::texts(images@) =~= Seq::empty());
    for i in 0..entries.len()
        invariant
            text::texts(subdirs@) == subdir_names(entries@.take(i as int)),
            text::texts(images@) == image_names(entries@.take(i as int)),
    {
        assert(entries@.take(i + 1).drop_last() =~= entries@.take(i as int));
        let name = path::lossy_text(entries[i].name.as_slice());
        if !hidden(name.as_str()) {
            match &entries[i].kind {
                Some(EntryKind::Directory) => {
                    proof {
                        text::texts_push(subdirs@, name);
                    }
                    subdirs.push(name);
                },
                Some(EntryKind::File) => {
                    if media::is_image(name.as_str()) {
                        proof {
                            text::texts_push(images@, name);
                        }
                        images.push(name);
                    }
                },
                _ => {},
            }
        }
    }
    assert(entries@.take(entries@.len() as int) =~= entries@);
    Listing { subdirs: order::sort_names(subdirs, true), images: order::sort_names(images, true) }
}

// --- Links ---

/// The escaped path, below the configured directory, of what is called `name`
/// in the directory `sub_path`.
pub open spec fn link_path(sub_path: Seq<char>, name: Seq<char>) -> Seq<char> {
    if sub_path.len() == 0 {
        escape::url_escape(name)
    } else {
        escape::url_escape(sub_path) + "/"@ + escape::url_escape(name)
    }
}

/// The escaped path of what is called `name` in the directory `sub_path`.
fn link_to(sub_path: &str, name: &str) -> (r: String)
    ensures
        r@ == link_path(sub_path@, name@),
{
    if sub_path.is_empty() {
        url_encode(name)
    } else {
        let mut out = url_encode(sub_path);
        out.append("/");
        let tail = url_encode(name);
        out.append(tail.as_str());
        out
    }
}

// --- The breadcrumb ---

/// The link to the directory that the first `n` components of the path lead to.
pub open spec fn crumb(dir_idx: nat, parts: Seq<Seq<char>>, n: int) -> Seq<char> {
    " / <a href=\"/browse/"@ + text::decimal(dir_idx) + "/"@ + escape::url_escape(
        text::join(parts.take(n), '/'),
    ) + "\">"@ + escape::html_escape(parts[n - 1]) + "</a>"@
}

/// The links to the directories on the way along the first `n` components.
pub open spec fn crumbs(dir_idx: nat, parts: Seq<Seq<char>>, n: nat) -> Seq<char>
    decreases n,
{
    if n == 0 {
        Seq::empty()
    } else {
        crumbs(dir_idx, parts, (n - 1) as nat) + crumb(dir_idx, parts, n as int)
    }
}

/// The links from the start page down to the directory shown.
pub open spec fn breadcrumb_text(
    dir_idx: nat,
    dir_name: Seq<char>,
    sub_path: Seq<char>,
) -> Seq<char> {
    let parts = text::split(sub_path, '/');
    "<nav class=\"breadcrumb\"><a href=\"/\">Home</a> / <a href=\"/browse/"@ + text::decimal(
        dir_idx,
    ) + "\">"@ + escape::html_escape(dir_name) + "</a>"@ + (if sub_path.len() == 0 {
        Seq::empty()
    } else {
        crumbs(dir_idx, parts, parts.len())
    }) + "</nav>"@
}

/// The links from the start page down to the directory shown.
fn breadcrumb(dir_idx: usize, dir_name: &str, sub_path: &str) -> (r: String)
    ensures
        r@ == breadcrumb_text(dir_idx as nat, dir_name@, sub_path@),
{
    let mut trail: String = String::new();
    if !sub_path.is_empty() {
        let parts = text::split_text(sub_path, '/');
        let ghost all = text::texts(parts@);
        let mut partial: String = String::new();
        assert(all.take(0) =~= Seq::empty());
        for i in 0..parts.len()
            invariant
                all == text::texts(parts@),
                partial@ == text::join(all.take(i as int), '/'),
                trail@ == crumbs(dir_idx as nat, all, i as nat),
        {
            let ghost before = partial@;
            if i > 0 {
                partial.push('/');
            }
            partial.append(parts[i].as_str());
            proof {
                text::join_next(all, i as int, '/');
                assert(all[i as int] == parts@[i as int]@);
                if i == 0 {
                    assert(before =~= Seq::empty());
                    assert(partial@ =~= all[0]);
                }
            }
            let mut link: String = " / <a href=\"/browse/".to_string();
            text::push_decimal(&mut link, dir_idx as u64);
            link.append("/");
            UrlEnc(partial.as_str()).fmt(&mut link);
            link.append("\">");
            HtmlEsc(parts[i].as_str()).fmt(&mut link);
            link.append("</a>");
            trail.append(link.as_str());
        }
    }
    let mut out: String =
        "<nav class=\"breadcrumb\"><a href=\"/\">Home</a> / <a href=\"/browse/".to_string();
    text::push_decimal(&mut out, dir_idx as u64);
    out.append("\">");
    HtmlEsc(dir_name).fmt(&mut out);
    out.append("</a>");
    out.append(trail.as_str());
    out.append("</nav>");
    out
}

// --- Subdirectories ---

/// The link to a subdirectory.
pub open spec fn subdir_text(dir_idx: nat, sub_path: Seq<char>, name: Seq<char>) -> Seq<char> {
    "<a class=\"dir-link\" href=\"/browse/"@ + text::decimal(dir_idx) + "/"@ + link_path(
        sub_path,
        name,
    ) + "\">"@ + FOLDER_ICON@ + " "@ + escape::html_escape(name) + "</a>"@
}

/// The links to all subdirectories.
pub open spec fn subdirs_text(
    dir_idx: nat,
    sub_path: Seq<char>,
    names: Seq<Seq<char>>,
) -> Seq<char> {
    text::expand(names, |name: Seq<char>| subdir_text(dir_idx, sub_path, name))
}

/// The links to all subdirectories.
fn subdirs_html(dir_idx: usize, sub_path: &str, names: &Vec<String>) -> (r: String)
    ensures
        r@ == subdirs_text(dir_idx as nat, sub_path@, text::texts(names@)),
{
    let ghost all = text::texts(names@);
    let ghost g = |name: Seq<char>| subdir_text(dir_idx as nat, sub_path@, name);
    assert(subdirs_text(dir_idx as nat, sub_path@, all) == text::expand(all, g));
    let mut out: String = String::new();
    assert(all.take(0) =~= Seq::empty());
    for i in 0..names.len()
        invariant
            all == text::texts(names@),
            g == (|name: Seq<char>| subdir_text(dir_idx as nat, sub_path@, name)),
            out@ == text::expand(all.take(i as int), g),
    {
        let name = names[i].as_str();
        let mut link: String = "<a class=\"dir-link\" href=\"/browse/".to_string();
        text::push_decimal(&mut link, dir_idx as u64);
        link.append("/");
        let target = link_to(sub_path, name);
        link.append(target.as_str());
        link.append("\">");
        link.append(FOLDER_ICON);
        link.append(" ");
        HtmlEsc(name).fmt(&mut link);
        link.append("</a>");
        out.append(link.as_str());
        proof {
            text::expand_next(all, i as int, g);
            assert(link@ == g(all[i as int]));
        }
    }
    assert(all.take(all.len() as int) =~= all);
    out
}

// --- Images ---

/// What an image is marked by: the text of its path.
pub open spec fn mark_key(dir: Seq<u8>, name: Seq<char>) -> Seq<char> {
    path::lossy_utf8(path::joined(dir, encode_utf8(name)))
}

/// The card for an image.
pub open spec fn card_text(
    dir_idx: nat,
    name: Seq<char>,
    rel_path: Seq<char>,
    hash: nat,
    marked: bool,
) -> Seq<char> {
    let idx = text::decimal(dir_idx);
    let shown = escape::html_escape(name);
    "<div class=\""@ + (if marked {
        "card downloaded"@
    } else {
        "card"@
    }) + "\" id=\"c"@ + text::decimal(hash) + "\">\n<a href=\"/image/"@ + idx + "/"@ + rel_path
        + "\" target=\"_blank\" rel=\"noopener\">\n<img src=\"/thumb/"@ + idx + "/"@ + rel_path
        + "\" alt=\""@ + shown
        + "\" loading=\"lazy\">\n</a><div class=\"card-info\">\n<span class=\"card-name\" title=\""@
        + shown + "\">"@ + shown
        + "</span>\n<div class=\"card-actions\">\n<a class=\"btn btn-dl\" href=\"/download/"@ + idx
        + "/"@ + rel_path
        + "\" title=\"Download\">&#8615;</a>\n<button class=\"btn btn-mark"@ + (if marked {
        " active"@
    } else {
        ""@
    }) + "\" onclick=\"toggleMark("@ + idx + ",'"@ + escape::js_escape(rel_path)
        + "',this)\" title=\"Mark downloaded\">&#10003;</button>\n</div></div></div>"@
}

/// The card for the image called `name` in the directory `dir`.
pub open spec fn image_card(
    dir_idx: nat,
    sub_path: Seq<char>,
    dir: Seq<u8>,
    marks: Set<Seq<char>>,
    name: Seq<char>,
) -> Seq<char> {
    let key = mark_key(dir, name);
    card_text(
        dir_idx,
        name,
        link_path(sub_path, name),
        escape::dom_hash(key),
        marks.contains(key),
    )
}

/// The cards for all images.
pub open spec fn cards_text(
    dir_idx: nat,
    sub_path: Seq<char>,
    dir: Seq<u8>,
    marks: Set<Seq<char>>,
    names: Seq<Seq<char>>,
) -> Seq<char> {
    text::expand(names, |name: Seq<char>| image_card(dir_idx, sub_path, dir, marks, name))
}

/// The card for an image.
fn card(dir_idx: usize, name: &str, rel_path: &str, hash: u64, marked: bool) -> (r: String)
    ensures
        r@ == card_text(dir_idx as nat, name@, rel_path@, hash as nat, marked),
{
    let card_class = if marked {
        "card downloaded"
    } else {
        "card"
    };
    let mark_active = if marked {
        " active"
    } else {
        ""
    };
    let mut out: String = "<div class=\"".to_string();
    out.append(card_class);
    out.append("\" id=\"c");
    text::push_decimal(&mut out, hash);
    out.append("\">\n<a href=\"/image/");
    text::push_decimal(&mut out, dir_idx as u64);
    out.append("/");
    out.append(rel_path);
    out.append("\" target=\"_blank\" rel=\"noopener\">\n<img src=\"/thumb/");
    text::push_decimal(&mut out, dir_idx as u64);
    out.append("/");
    out.append(rel_path);
    out.append("\" alt=\"");
    HtmlEsc(name).fmt(&mut out);
    out.append(
        "\" loading=\"lazy\">\n</a><div class=\"card-info\">\n<span class=\"card-name\" title=\"",
    );
    HtmlEsc(name).fmt(&mut out);
    out.append("\">");
    HtmlEsc(name).fmt(&mut out);
    out.append(
        "</span>\n<div class=\"card-actions\">\n<a class=\"btn btn-dl\" href=\"/download/",
    );
    text::push_decimal(&mut out, dir_idx as u64);
    out.append("/");
    out.append(rel_path);
    out.append("\" title=\"Download\">&#8615;</a>\n<button class=\"btn btn-mark");
    out.append(mark_active);
    out.append("\" onclick=\"toggleMark(");
    text::push_decimal(&mut out, dir_idx as u64);
    out.append(",'");
    JsEsc(rel_path).fmt(&mut out);
    out.append("',this)\" title=\"Mark downloaded\">&#10003;</button>\n</div></div></div>");
    out
}

/// The cards for all images.
fn cards_html(
    dir_idx: usize,
    sub_path: &str,
    dir: &FilePath,
    downloads: &DownloadState,
    names: &Vec<String>,
) -> (r: String)
    ensures
        r@ == cards_text(dir_idx as nat, sub_path@, dir@, downloads@, text::texts(names@)),
{
    let ghost all = text::texts(names@);
    let ghost g = |name: Seq<char>|
        image_card(dir_idx as nat, sub_path@, dir@, downloads@, name);
    assert(cards_text(dir_idx as nat, sub_path@, dir@, downloads@, all) == text::expand(all, g));
    let mut out: String = String::new();
    assert(all.take(0) =~= Seq::empty());
    for i in 0..names.len()
        invariant
            all == text::texts(names@),
            g == (|name: Seq<char>|
                image_card(dir_idx as nat, sub_path@, dir@, downloads@, name)),
            out@ == text::expand(all.take(i as int), g),
    {
        let name = names[i].as_str();
        let rel_path = link_to(sub_path, name);
        let abs_path = dir.join(name).to_text();
        let marked = downloads.contains(abs_path.as_str());
        let hash: u64 = simple_hash(abs_path.as_str());
        let one = card(dir_idx, name, rel_path.as_str(), hash, marked);
        out.append(one.as_str());
        proof {
            text::expand_next(all, i as int, g);
            assert(one@ == g(all[i as int]));
        }
    }
    assert(all.take(all.len() as int) =~= all);
    out
}

// --- The page ---

/// A count, its noun, and the plural ending where it is due.
pub open spec fn counted(n: nat, noun: Seq<char>) -> Seq<char> {
    text::decimal(n) + noun + (if n == 1 {
        ""@
    } else {
        "s"@
    })
}

/// The line that counts what is shown.
pub open spec fn count_text(subdirs: nat, images: nat) -> Seq<char> {
    counted(subdirs, " folder"@) + ", "@ + counted(images, " image"@)
}

/// The part of the page for the subdirectories: nothing where there are none.
pub open spec fn subdirs_section(links: Seq<char>) -> Seq<char> {
    if links.len() == 0 {
        Seq::empty()
    } else {
        "<div class=\"dir-list\">"@ + links + "</div>"@
    }
}

/// The part of the page for the images.
pub open spec fn images_section(cards: Seq<char>) -> Seq<char> {
    if cards.len() == 0 {
        "<p class=\"empty\">No images in this directory.</p>"@
    } else {
        "<div class=\"grid\">"@ + cards + "</div>"@
    }
}

/// Appends a count, its noun, and the plural ending where it is due.
fn push_counted(out: &mut String, n: usize, noun: &str)
    ensures
        final(out)@ == old(out)@ + counted(n as nat, noun@),
{
    let ghost before = out@;
    text::push_decimal(out, n as u64);
    out.append(noun);
    let ending = if n == 1 {
        ""
    } else {
        "s"
    };
    out.append(ending);
    assert(out@ =~= before + counted(n as nat, noun@));
}

/// A request to see a directory that is configured and could be resolved.
pub struct Browse {
    /// The configured directory's number.
    pub dir_idx: usize,
    /// The configured directory's name.
    pub dir_name: String,
    /// The path below it that is asked for; empty for the directory itself.
    pub sub_path: String,
    /// What the configured directory resolved to.
    pub base: CanonicalPath,
}

impl Browse {
    /// The page that shows the directory at `full`.
    pub open spec fn page_text(
        self,
        full: Seq<Seq<u8>>,
        marks: Set<Seq<char>>,
        subdirs: Seq<Seq<char>>,
        images: Seq<Seq<char>>,
    ) -> Seq<char> {
        let idx = self.dir_idx as nat;
        html::page_text(
            "tis - browse"@,
            breadcrumb_text(idx, self.dir_name@, self.sub_path@) + "\n<p class=\"count-info\">"@
                + count_text(subdirs.len(), images.len()) + "</p>\n"@ + subdirs_section(
                subdirs_text(idx, self.sub_path@, subdirs),
            ) + "\n"@ + images_section(
                cards_text(idx, self.sub_path@, path::rendered(full), marks, images),
            ) + "\n<script>"@ + JS@ + "</script>"@,
        )
    }

    /// The page that shows the directory at `full`.
    pub fn listing_page(
        &self,
        full: &CanonicalPath,
        downloads: &DownloadState,
        listing: &Listing,
    ) -> (r: Reply)
        ensures
            r@ == reply::html_reply(
                200,
                self.page_text(
                    full@,
                    downloads@,
                    text::texts(listing.subdirs@),
                    text::texts(listing.images@),
                ),
            ),
    {
        let sub_path = self.sub_path.as_str();
        let links = subdirs_html(self.dir_idx, sub_path, &listing.subdirs);
        let cards = cards_html(self.dir_idx, sub_path, &full.path(), downloads, &listing.images);

        let mut count_info: String = String::new();
        push_counted(&mut count_info, listing.subdirs.len(), " folder");
        count_info.append(", ");
        push_counted(&mut count_info, listing.images.len(), " image");
        assert(count_info@ =~= count_text(listing.subdirs@.len(), listing.images@.len()));

        let mut dirs_section: String = String::new();
        if !links.as_str().is_empty() {
            dirs_section = "<div class=\"dir-list\">".to_string();
            dirs_section.append(links.as_str());
            dirs_section.append("</div>");
        }
        let mut grid_section: String =
            "<p class=\"empty\">No images in this directory.</p>".to_string();
        if !cards.as_str().is_empty() {
            grid_section = "<div class=\"grid\">".to_string();
            grid_section.append(cards.as_str());
            grid_section.append("</div>");
        }
        let mut body = breadcrumb(self.dir_idx, self.dir_name.as_str(), sub_path);
        body.append("\n<p class=\"count-info\">");
        body.append(count_info.as_str());
        body.append("</p>\n");
        body.append(dirs_section.as_str());
        body.append("\n");
        body.append(grid_section.as_str());
        body.append("\n<script>");
        body.append(JS);
        body.append("</script>");
        Reply::html(200, page("tis - browse", body.as_str()))
    }
}

// --- The request, step by step ---

/// What is to be done next for a request.
pub enum BrowseStep {
    /// Resolve this path on disk.
    Canonicalize(FilePath),
    /// Find out whether there is a directory at this path.
    CheckDirectory(CanonicalPath),
    /// Read the entries of the directory at this path.
    ReadDirectory(CanonicalPath),
    /// Send this answer.
    Respond(Reply),
}

/// What came of it.
pub enum BrowseEvent {
    /// What the path resolved to; none if it did not.
    Canonical(Option<CanonicalPath>),
    /// Whether there is a directory.
    Directory(bool),
    /// The entries; none if the directory could not be read.
    Entries(Option<Vec<DirEntry>>),
}

/// What is to be done next, in specifications.
pub enum BrowseStepView {
    Canonicalize(Seq<u8>),
    CheckDirectory(Seq<Seq<u8>>),
    ReadDirectory(Seq<Seq<u8>>),
    Respond(reply::ReplyView),
}

impl View for BrowseStep {
    type V = BrowseStepView;

    open spec fn view(&self) -> BrowseStepView {
        match self {
            BrowseStep::Canonicalize(p) => BrowseStepView::Canonicalize(p@),
            BrowseStep::CheckDirectory(p) => BrowseStepView::CheckDirectory(p@),
            BrowseStep::ReadDirectory(p) => BrowseStepView::ReadDirectory(p@),
            BrowseStep::Respond(reply) => BrowseStepView::Respond(reply@),
        }
    }
}

/// Whether an event is the outcome of a step.
pub open spec fn answers(step: BrowseStepView, event: BrowseEvent) -> bool {
    match step {
        BrowseStepView::Canonicalize(_) => event is Canonical,
        BrowseStepView::CheckDirectory(_) => event is Directory,
        BrowseStepView::ReadDirectory(_) => event is Entries,
        BrowseStepView::Respond(_) => false,
    }
}

impl Browse {
    /// The first step: the directory itself needs no resolving.
    pub open spec fn first_step(self) -> BrowseStepView {
        if self.sub_path@.len() == 0 {
            BrowseStepView::CheckDirectory(self.base@)
        } else {
            BrowseStepView::Canonicalize(
                path::joined(path::rendered(self.base@), encode_utf8(self.sub_path@)),
            )
        }
    }

    /// Whether `next` is what follows once `event` came of `step`.
    pub open spec fn follows(
        self,
        marks: Set<Seq<char>>,
        step: BrowseStepView,
        event: BrowseEvent,
        next: BrowseStepView,
    ) -> bool {
        match (step, event) {
            (BrowseStepView::Canonicalize(_), BrowseEvent::Canonical(None)) => next
                == BrowseStepView::Respond(html::error_reply(404, "Path not found"@)),
            (BrowseStepView::Canonicalize(_), BrowseEvent::Canonical(Some(full))) => next == (
            if path::within(full@, self.base@) {
                BrowseStepView::CheckDirectory(full@)
            } else {
                BrowseStepView::Respond(html::error_reply(403, "Access denied"@))
            }),
            (BrowseStepView::CheckDirectory(full), BrowseEvent::Directory(there)) => next == (
            if there {
                BrowseStepView::ReadDirectory(full)
            } else {
                BrowseStepView::Respond(html::error_reply(404, "Not a directory"@))
            }),
            (BrowseStepView::ReadDirectory(_), BrowseEvent::Entries(None)) => next
                == BrowseStepView::Respond(html::error_reply(500, "Cannot read directory"@)),
            (BrowseStepView::ReadDirectory(full), BrowseEvent::Entries(Some(entries))) => exists|
                subdirs: Seq<Seq<char>>,
                images: Seq<Seq<char>>,
            |
                #[trigger] is_listing(entries@, subdirs, images) && next == BrowseStepView::Respond(
                    reply::html_reply(200, self.page_text(full, marks, subdirs, images)),
                ),
            _ => false,
        }
    }

    /// The first step.
    pub fn start(&self) -> (r: BrowseStep)
        ensures
            r@ == self.first_step(),
    {
        if self.sub_path.as_str().is_empty() {
            BrowseStep::CheckDirectory(self.base.clone())
        } else {
            BrowseStep::Canonicalize(self.base.path().join(self.sub_path.as_str()))
        }
    }

    /// The step that follows once `event` came of `step`.
    pub fn next(&self, downloads: &DownloadState, step: BrowseStep, event: BrowseEvent) -> (r:
        BrowseStep)
        requires
            answers(step@, event),
        ensures
            self.follows(downloads@, step@, event, r@),
    {
        match (step, event) {
            (BrowseStep::Canonicalize(_), BrowseEvent::Canonical(found)) => match found {
                None => BrowseStep::Respond(error_page(404, "Path not found")),
                Some(full) => if full.starts_with(&self.base) {
                    BrowseStep::CheckDirectory(full)
                } else {
                    BrowseStep::Respond(error_page(403, "Access denied"))
                },
            },
            (BrowseStep::CheckDirectory(full), BrowseEvent::Directory(there)) => if there {
                BrowseStep::ReadDirectory(full)
            } else {
                BrowseStep::Respond(error_page(404, "Not a directory"))
            },
            (BrowseStep::ReadDirectory(full), BrowseEvent::Entries(found)) => match found {
                None => BrowseStep::Respond(error_page(500, "Cannot read directory")),
                Some(entries) => {
                    let listing = list_entries(&entries);
                    assert(is_listing(
                        entries@,
                        text::texts(listing.subdirs@),
                        text::texts(listing.images@),
                    ));
                    BrowseStep::Respond(self.listing_page(&full, downloads, &listing))
                },
            },
            (step, _) => step,
        }
    }
}

/// Whether `r` is how a request for the path `sub_path` below a configured
/// directory begins: an error page where there is no such directory or it could
/// not be resolved.
pub open spec fn begins(
    app: AppState,
    dir_idx: usize,
    sub_path: Seq<char>,
    r: Result<Browse, Reply>,
) -> bool {
    match r {
        Ok(b) => {
            &&& dir_idx < app.config.directories@.len()
            &&& app.base_of(dir_idx as int) == Some(b.base@)
            &&& b.dir_idx == dir_idx
            &&& b.dir_name@ == app.config.directories@[dir_idx as int].name@
            &&& b.sub_path@ == sub_path
        },
        Err(reply) => if dir_idx >= app.config.directories@.len() {
            reply@ == html::error_reply(404, "Directory not found"@)
        } else {
            &&& app.base_of(dir_idx as int) is None
            &&& reply@ == html::error_reply(404, "Directory not accessible"@)
        },
    }
}

/// Begins a request for the path `sub_path` below a configured directory.
pub fn browse_inner(app: &AppState, dir_idx: usize, sub_path: &str) -> (r: Result<Browse, Reply>)
    ensures
        begins(*app, dir_idx, sub_path@, r),
{
    if dir_idx >= app.config.directories.len() {
        return Err(error_page(404, "Directory not found"));
    }
    match app.base(dir_idx) {
        None => Err(error_page(404, "Directory not accessible")),
        Some(base) => Ok(
            Browse {
                dir_idx,
                dir_name: app.config.directories[dir_idx].name.clone(),
                sub_path: sub_path.to_string(),
                base: base.clone(),
            },
        ),
    }
}

/// Begins a request for a configured directory itself.
pub fn browse_root(app: &AppState, dir_idx: usize) -> (r: Result<Browse, Reply>)
    ensures
        begins(*app, dir_idx, Seq::empty(), r),
{
    let whole: String = String::new();
    browse_inner(app, dir_idx, whole.as_str())
}

/// Begins a request for a path below a configured directory.
pub fn browse_sub(app: &AppState, dir_idx: usize, path: &str) -> (r: Result<Browse, Reply>)
    ensures
        begins(*app, dir_idx, path@, r),
{
    browse_inner(app, dir_idx, path)
}

// --- Laws ---

/// Whether a step looks at nothing outside `base`.
pub open spec fn stays_inside(step: BrowseStepView, base: Seq<Seq<u8>>) -> bool {
    match step {
        BrowseStepView::CheckDirectory(full) => path::within(full, base),
        BrowseStepView::ReadDirectory(full) => path::within(full, base),
        _ => true,
    }
}

/// Whether `steps` are what a request leads to when `events` come of them.
pub open spec fn is_run(
    b: Browse,
    marks: Set<Seq<char>>,
    steps: Seq<BrowseStepView>,
    events: Seq<BrowseEvent>,
) -> bool {
    &&& steps.len() == events.len() + 1
    &&& steps[0] == b.first_step()
    &&& forall|i: int|
        0 <= i < events.len() ==> b.follows(marks, steps[i], #[trigger] events[i], steps[i + 1])
}

/// Whatever the disk answers, a request never looks into a directory that is
/// not the configured one or below it.
pub proof fn browsing_stays_inside(
    b: Browse,
    marks: Set<Seq<char>>,
    steps: Seq<BrowseStepView>,
    events: Seq<BrowseEvent>,
    i: int,
)
    requires
        is_run(b, marks, steps, events),
        0 <= i < steps.len(),
    ensures
        stays_inside(steps[i], b.base@),
    decreases i,
{
    if i > 0 {
        browsing_stays_inside(b, marks, steps, events, i - 1);
        assert(b.follows(marks, steps[i - 1], events[i - 1], steps[i]));
    }
}

/// How many steps a request can still take.
pub open spec fn steps_left(step: BrowseStepView) -> nat {
    match step {
        BrowseStepView::Canonicalize(_) => 3,
        BrowseStepView::CheckDirectory(_) => 2,
        BrowseStepView::ReadDirectory(_) => 1,
        BrowseStepView::Respond(_) => 0,
    }
}

/// A request is answered after at most three looks at the disk, and a step that
/// is not the answer has a next one.
pub proof fn browsing_ends(
    b: Browse,
    marks: Set<Seq<char>>,
    steps: Seq<BrowseStepView>,
    events: Seq<BrowseEvent>,
    i: int,
)
    requires
        is_run(b, marks, steps, events),
        0 <= i < steps.len(),
    ensures
        steps_left(steps[i]) + i <= 3,
        i + 1 < steps.len() ==> !(steps[i] is Respond),
    decreases i,
{
    if i > 0 {
        browsing_ends(b, marks, steps, events, i - 1);
        assert(b.follows(marks, steps[i - 1], events[i - 1], steps[i]));
    }
    if i + 1 < steps.len() {
        assert(b.follows(marks, steps[i], events[i], steps[i + 1]));
    }
}

/// A path that resolves outside the configured directory is answered with
/// "Access denied", whatever it is.
pub proof fn outside_is_denied(
    b: Browse,
    marks: Set<Seq<char>>,
    asked: Seq<u8>,
    full: CanonicalPath,
    next: BrowseStepView,
)
    requires
        !path::within(full@, b.base@),
        b.follows(
            marks,
            BrowseStepView::Canonicalize(asked),
            BrowseEvent::Canonical(Some(full)),
            next,
        ),
    ensures
        next == BrowseStepView::Respond(html::error_reply(403, "Access denied"@)),
{
}

/// A path that resolves to a directory inside the configured one, and can be
/// read, is answered with the page that lists what is in it.
pub proof fn directories_inside_are_shown(
    b: Browse,
    marks: Set<Seq<char>>,
    steps: Seq<BrowseStepView>,
    events: Seq<BrowseEvent>,
    full: CanonicalPath,
    entries: Vec<DirEntry>,
)
    requires
        b.sub_path@.len() > 0,
        path::within(full@, b.base@),
        is_run(b, marks, steps, events),
        events == seq![
            BrowseEvent::Canonical(Some(full)),
            BrowseEvent::Directory(true),
            BrowseEvent::Entries(Some(entries)),
        ],
    ensures
        exists|subdirs: Seq<Seq<char>>, images: Seq<Seq<char>>|
            #[trigger] is_listing(entries@, subdirs, images) && steps.last()
                == BrowseStepView::Respond(
                reply::html_reply(200, b.page_text(full@, marks, subdirs, images)),
            ),
{
    assert(b.follows(marks, steps[0], events[0], steps[1]));
    assert(b.follows(marks, steps[1], events[1], steps[2]));
    assert(b.follows(marks, steps[2], events[2], steps[3]));
}

/// The start page disables the link to a directory just where following the link
/// is answered with an error page.
pub proof fn start_page_links_work(app: AppState, dir_idx: usize, r: Result<Browse, Reply>)
    requires
        app.well_formed(),
        dir_idx < app.config.directories@.len(),
        begins(app, dir_idx, Seq::empty(), r),
    ensures
        html::index_entries(app, dir_idx as nat + 1) == html::index_entries(app, dir_idx as nat)
            + html::index_entry(
            dir_idx as nat,
            app.config.directories@[dir_idx as int].name@,
            r is Ok,
        ),
{
}

/// What is shown as an image is exactly what the directory holds as visible
/// files with image names, and likewise for subdirectories.
pub proof fn listing_is_complete(
    entries: Seq<DirEntry>,
    subdirs: Seq<Seq<char>>,
    images: Seq<Seq<char>>,
    name: Seq<char>,
)
    requires
        is_listing(entries, subdirs, images),
    ensures
        subdirs.contains(name) <==> exists|i: int|
            0 <= i < entries.len() && lists_subdir(#[trigger] entries[i]) && path::lossy_utf8(
                entries[i].name@,
            ) == name,
        images.contains(name) <==> exists|i: int|
            0 <= i < entries.len() && lists_image(#[trigger] entries[i]) && path::lossy_utf8(
                entries[i].name@,
            ) == name,
{
    names_come_from_entries(entries, name);
    subdirs.to_multiset_ensures();
    subdir_names(entries).to_multiset_ensures();
    images.to_multiset_ensures();
    image_names(entries).to_multiset_ensures();
    assert(subdirs.contains(name) <==> subdirs.to_multiset().count(name) > 0);
    assert(images.contains(name) <==> images.to_multiset().count(name) > 0);
    assert(subdir_names(entries).contains(name) <==> subdir_names(entries).to_multiset().count(name)
        > 0);
    assert(image_names(entries).contains(name) <==> image_names(entries).to_multiset().count(name)
        > 0);
}

/// The listed names are those of listed entries.
proof fn names_come_from_entries(entries: Seq<DirEntry>, name: Seq<char>)
    ensures
        subdir_names(entries).contains(name) <==> exists|i: int|
            0 <= i < entries.len() && lists_subdir(#[trigger] entries[i]) && path::lossy_utf8(
                entries[i].name@,
            ) == name,
        image_names(entries).contains(name) <==> exists|i: int|
            0 <= i < entries.len() && lists_image(#[trigger] entries[i]) && path::lossy_utf8(
                entries[i].name@,
            ) == name,
    decreases entries.len(),
{
    if entries.len() > 0 {
        let front = entries.drop_last();
        let last = entries.last();
        let shown = path::lossy_utf8(last.name@);
        names_come_from_entries(front, name);
        text::members_push(subdir_names(front), shown);
        text::members_push(image_names(front), shown);
        assert forall|i: int| 0 <= i < front.len() implies #[trigger] entries[i] == front[i] by {}
        assert(entries[entries.len() - 1] == last);
        if exists|i: int|
            0 <= i < front.len() && lists_subdir(#[trigger] front[i]) && path::lossy_utf8(
                front[i].name@,
            ) == name {
            let i = choose|i: int|
                0 <= i < front.len() && lists_subdir(#[trigger] front[i]) && path::lossy_utf8(
                    front[i].name@,
                ) == name;
            assert(entries[i] == front[i]);
        }
        if exists|i: int|
            0 <= i < front.len() && lists_image(#[trigger] front[i]) && path::lossy_utf8(
                front[i].name@,
            ) == name {
            let i = choose|i: int|
                0 <= i < front.len() && lists_image(#[trigger] front[i]) && path::lossy_utf8(
                    front[i].name@,
                ) == name;
            assert(entries[i] == front[i]);
        }
    }
}

/// The path, below the configured directory, of what is called `name` in the
/// directory `sub_path`.
pub open spec fn below(sub_path: Seq<char>, name: Seq<char>) -> Seq<char> {
    if sub_path.len() == 0 {
        name
    } else {
        sub_path + "/"@ + name
    }
}

/// A link, once decoded, asks for the file or directory that it was shown for.
pub proof fn links_lead_there(sub_path: Seq<char>, name: Seq<char>)
    ensures
        link_path(sub_path, name) == escape::url_escape(below(sub_path, name)),
        decode_utf8(escape::url_read(link_path(sub_path, name))) == below(sub_path, name),
{
    escape::url_joins(sub_path, name);
    escape::url_reads_back(below(sub_path, name));
}

/// The components of the directory `sub_path` below `base`.
pub open spec fn directory_parts(base: Seq<Seq<u8>>, sub_path: Seq<char>) -> Seq<Seq<u8>> {
    if sub_path.len() == 0 {
        base
    } else {
        base + text::split(encode_utf8(sub_path), path::SLASH)
    }
}

/// Following the link of what is called `name` in a directory asks for the file
/// or directory of that name in that directory, where the way there is made of
/// plain names.
pub proof fn links_ask_for_what_is_listed(
    base: Seq<Seq<u8>>,
    sub_path: Seq<char>,
    name: Seq<char>,
)
    requires
        path::all_names(directory_parts(base, sub_path)),
        path::is_name(encode_utf8(name)),
    ensures
        path::joined(
            path::rendered(base),
            escape::url_read(link_path(sub_path, name)),
        ) == path::rendered(directory_parts(base, sub_path).push(encode_utf8(name))),
{
    let n = encode_utf8(name);
    let dir = directory_parts(base, sub_path);
    let parts = dir.push(n);
    links_lead_there(sub_path, name);
    escape::url_reads_back(below(sub_path, name));
    assert(path::all_names(parts));
    assert(path::within(parts, base));
    path::relative_path_leads_back(parts, base);
    let rest = parts.skip(base.len() as int);
    if sub_path.len() == 0 {
        assert(rest =~= seq![n]);
    } else {
        let s = encode_utf8(sub_path);
        let front = text::split(s, path::SLASH);
        reveal_strlit("/");
        assert("/"@ =~= seq!['/']);
        is_ascii_chars_encode_utf8("/"@);
        assert(encode_utf8("/"@) =~= seq![path::SLASH]);
        text::encoding_of_concatenation(sub_path + "/"@, name);
        text::encoding_of_concatenation(sub_path, "/"@);
        text::join_of_split(s, path::SLASH);
        text::split_pieces(s, path::SLASH);
        assert(rest =~= front + seq![n]);
        text::join_of_concatenation(front, seq![n], path::SLASH);
        assert(path::relative_to(parts, base) =~= encode_utf8(below(sub_path, name)));
    }
}

/// The last link of the breadcrumb leads to the directory shown.
pub proof fn breadcrumb_ends_here(dir_idx: nat, sub_path: Seq<char>)
    ensures
        ({
            let parts = text::split(sub_path, '/');
            crumb(dir_idx, parts, parts.len() as int) == " / <a href=\"/browse/"@ + text::decimal(
                dir_idx,
            ) + "/"@ + escape::url_escape(sub_path) + "\">"@ + escape::html_escape(parts.last())
                + "</a>"@
        }),
{
    let parts = text::split(sub_path, '/');
    text::join_of_split(sub_path, '/');
    assert(parts.take(parts.len() as int) =~= parts);
}

/// The card for an image looks up the very mark that switching the image's mark
/// changes: the image called `name` in the directory `dir` is marked by the text
/// of its own path. So its card shows the new mark.
pub proof fn cards_show_their_marks(
    dir_idx: nat,
    sub_path: Seq<char>,
    dir: Seq<Seq<u8>>,
    marks: Set<Seq<char>>,
    name: Seq<char>,
)
    requires
        path::all_names(dir),
        path::is_name(encode_utf8(name)),
    ensures
        ({
            let key = serve::image_key(dir.push(encode_utf8(name)));
            let before = marks.contains(key);
            &&& mark_key(path::rendered(dir), name) == key
            &&& image_card(
                dir_idx,
                sub_path,
                path::rendered(dir),
                state::toggled(marks, key),
                name,
            ) == card_text(
                dir_idx,
                name,
                link_path(sub_path, name),
                escape::dom_hash(key),
                !before,
            )
        }),
{
    let n = encode_utf8(name);
    let parts = dir.push(n);
    assert(path::all_names(parts));
    assert(path::within(parts, dir));
    path::relative_path_leads_back(parts, dir);
    assert(parts.skip(dir.len() as int) =~= seq![n]);
}

// --- Laws of the markup ---

/// Whether a link leads to what is called `what`, by the number of a configured
/// directory and the path of something below it, as the server reads it: the parts
/// between the slashes are nothing, the word, the number, and the path with its
/// escapes.
pub open spec fn is_link(link: Seq<char>, what: Seq<char>, number: nat, path: Seq<char>) -> bool {
    let parts = text::split(link, '/');
    &&& parts.len() >= 4
    &&& parts[0].len() == 0
    &&& parts[1] == what
    &&& is_number(parts[2], number)
    &&& escape::url_read(text::join(parts.skip(3), '/')) == encode_utf8(path)
}

/// Whether a text is a number in decimal: digits, without a zero too many in front.
pub open spec fn is_number(digits: Seq<char>, number: nat) -> bool {
    &&& digits.len() > 0
    &&& forall|i: int| 0 <= i < digits.len() ==> '0' <= #[trigger] digits[i] <= '9'
    &&& text::decimal_value(digits) == number
    &&& digits.len() > 1 ==> digits[0] != '0'
}

/// Whether a script calls for the mark of what lies at a path below a configured
/// directory: what stands between its single quotes is, as a JavaScript string, the
/// path with its escapes.
pub open spec fn is_call(script: Seq<char>, number: nat, path: Seq<char>) -> bool {
    let parts = text::split(script, '\'');
    &&& parts.len() == 3
    &&& parts[0].len() >= 12
    &&& parts[0].take(11) == "toggleMark("@
    &&& is_number(parts[0].subrange(11, parts[0].len() - 1), number)
    &&& parts[0].last() == ','
    &&& escape::js_read(parts[1]) matches Some(link) && escape::url_read(link) == encode_utf8(path)
    &&& parts[2] == ",this)"@
}

/// A number in decimal is read as that number.
proof fn decimal_is_number(n: nat)
    ensures
        is_number(text::decimal(n), n),
        !text::decimal(n).contains('"'),
        !text::decimal(n).contains('/'),
        !text::decimal(n).contains('\''),
{
    text::decimal_is_digits(n);
    text::decimal_reads_back(n);
    let d = text::decimal(n);
    assert forall|i: int| 0 <= i < d.len() implies d[i] != '"' && d[i] != '/' && d[i] != '\'' by {
        assert('0' <= d[i] <= '9');
    }
}

/// A link's path has no quotes in it.
proof fn link_has_no_quotes(sub_path: Seq<char>, name: Seq<char>)
    ensures
        !link_path(sub_path, name).contains('"'),
        !link_path(sub_path, name).contains('\''),
        escape::js_escape(link_path(sub_path, name)) == link_path(sub_path, name),
        escape::url_read(link_path(sub_path, name)) == encode_utf8(
            if sub_path.len() == 0 {
                name
            } else {
                sub_path + "/"@ + name
            },
        ),
{
    let s = below(sub_path, name);
    let t = link_path(sub_path, name);
    links_lead_there(sub_path, name);
    escape::url_reads_back(s);
    escape::url_is_safe(s);
    escape::url_needs_no_more_escaping(s);
    assert forall|i: int| 0 <= i < t.len() implies t[i] != '"' && t[i] != '\'' by {
        assert(escape::url_safe(escape::url_escape(s)[i]));
    }
}

/// Escaped text has no double quote in it.
proof fn shown_has_no_quotes(name: Seq<char>)
    ensures
        !escape::html_escape(name).contains('"'),
        !escape::html_escape(name).contains('<'),
{
    escape::html_has_no_markup(name);
    let t = escape::html_escape(name);
    assert forall|i: int| 0 <= i < t.len() implies t[i] != '"' && t[i] != '<' by {
        let c = escape::html_escape(name)[i];
    }
}

/// A link that is put together of the word, the number and the path is read so.
proof fn link_reads(what: Seq<char>, number: nat, sub_path: Seq<char>, name: Seq<char>)
    requires
        !what.contains('/'),
    ensures
        is_link(
            "/"@ + what + "/"@ + text::decimal(number) + "/"@ + link_path(sub_path, name),
            what,
            number,
            if sub_path.len() == 0 {
                name
            } else {
                sub_path + "/"@ + name
            },
        ),
{
    let t = link_path(sub_path, name);
    let idx = text::decimal(number);
    decimal_is_number(number);
    link_has_no_quotes(sub_path, name);
    reveal_strlit("/");
    let link = "/"@ + what + "/"@ + idx + "/"@ + t;
    let none = Seq::<char>::empty();
    let r2 = idx.push('/') + t;
    let r1 = what.push('/') + r2;
    assert(link =~= none.push('/') + r1);
    text::split_at_separator(none, r1, '/');
    text::split_at_separator(what, r2, '/');
    text::split_at_separator(idx, t, '/');
    text::split_pieces(t, '/');
    let parts = text::split(link, '/');
    assert(parts =~= seq![none, what, idx] + text::split(t, '/'));
    assert(parts.skip(3) =~= text::split(t, '/'));
    text::join_of_split(t, '/');
}

/// What stands between the quotes of the start of a card.
proof fn quotes_of_card_start()
    ensures
        text::split("<div class=\""@, '"') == Seq::<Seq<char>>::empty()
            .push("<div class="@)
            .push(Seq::<char>::empty()),
{
    reveal_strlit("<div class=\"");
    reveal_strlit("<div class=");
    let r1 = Seq::<char>::empty();
    let r0 = "<div class="@.push('"') + r1;
    assert(!"<div class="@.contains('"'));
    assert("<div class=\""@ =~= r0);
    text::split_without_separator(r1, '"');
    text::split_at_separator("<div class="@, r1, '"');
    let pieces = seq!["<div class="@, Seq::<char>::empty()];
    assert(text::split("<div class=\""@, '"') =~= pieces);
    assert(pieces =~= Seq::<Seq<char>>::empty().push("<div class="@).push(Seq::<char>::empty()));
}

/// What stands between the quotes of what comes before a card's id.
proof fn quotes_before_id(t: Seq<char>, done: Seq<Seq<char>>, last: Seq<char>)
    requires
        text::split(t, '"') == done.push(last),
    ensures
        text::split(t + "\" id=\"c"@, '"') == done.push(last)
            .push(" id="@)
            .push("c"@),
{
    reveal_strlit("\" id=\"c");
    reveal_strlit(" id=");
    reveal_strlit("c");
    let r2 = "c"@;
    let r1 = " id="@.push('"') + r2;
    let r0 = Seq::<char>::empty().push('"') + r1;
    assert(!" id="@.contains('"'));
    assert(!"c"@.contains('"'));
    assert("\" id=\"c"@ =~= r0);
    text::split_without_separator(r2, '"');
    text::split_at_separator(" id="@, r2, '"');
    text::split_at_separator(Seq::<char>::empty(), r1, '"');
    let pieces = seq![Seq::<char>::empty(), " id="@, "c"@];
    assert(text::split("\" id=\"c"@, '"') =~= pieces);
    text::split_continues(t, done, last, "\" id=\"c"@, pieces, '"');
    assert(last + Seq::<char>::empty() =~= last);
    assert(text::split(t + "\" id=\"c"@, '"') =~= done.push(last)
            .push(" id="@)
            .push("c"@));
}

/// What stands between the quotes of what comes before the link to an image.
proof fn quotes_before_image(t: Seq<char>, done: Seq<Seq<char>>, last: Seq<char>)
    requires
        text::split(t, '"') == done.push(last),
    ensures
        text::split(t + "\">\n<a href=\"/image/"@, '"') == done.push(last)
            .push(">\n<a href="@)
            .push("/image/"@),
{
    reveal_strlit("\">\n<a href=\"/image/");
    reveal_strlit(">\n<a href=");
    reveal_strlit("/image/");
    let r2 = "/image/"@;
    let r1 = ">\n<a href="@.push('"') + r2;
    let r0 = Seq::<char>::empty().push('"') + r1;
    assert(!">\n<a href="@.contains('"'));
    assert(!"/image/"@.contains('"'));
    assert("\">\n<a href=\"/image/"@ =~= r0);
    text::split_without_separator(r2, '"');
    text::split_at_separator(">\n<a href="@, r2, '"');
    text::split_at_separator(Seq::<char>::empty(), r1, '"');
    let pieces = seq![Seq::<char>::empty(), ">\n<a href="@, "/image/"@];
    assert(text::split("\">\n<a href=\"/image/"@, '"') =~= pieces);
    text::split_continues(t, done, last, "\">\n<a href=\"/image/"@, pieces, '"');
    assert(last + Seq::<char>::empty() =~= last);
    assert(text::split(t + "\">\n<a href=\"/image/"@, '"') =~= done.push(last)
            .push(">\n<a href="@)
            .push("/image/"@));
}

/// What stands between the quotes of what comes before a thumbnail.
proof fn quotes_before_thumb(t: Seq<char>, done: Seq<Seq<char>>, last: Seq<char>)
    requires
        text::split(t, '"') == done.push(last),
    ensures
        text::split(t + "\" target=\"_blank\" rel=\"noopener\">\n<img src=\"/thumb/"@, '"') == done.push(last)
            .push(" target="@)
            .push("_blank"@)
            .push(" rel="@)
            .push("noopener"@)
            .push(">\n<img src="@)
            .push("/thumb/"@),
{
    reveal_strlit("\" target=\"_blank\" rel=\"noopener\">\n<img src=\"/thumb/");
    reveal_strlit(" target=");
    reveal_strlit("_blank");
    reveal_strlit(" rel=");
    reveal_strlit("noopener");
    reveal_strlit(">\n<img src=");
    reveal_strlit("/thumb/");
    let r6 = "/thumb/"@;
    let r5 = ">\n<img src="@.push('"') + r6;
    let r4 = "noopener"@.push('"') + r5;
    let r3 = " rel="@.push('"') + r4;
    let r2 = "_blank"@.push('"') + r3;
    let r1 = " target="@.push('"') + r2;
    let r0 = Seq::<char>::empty().push('"') + r1;
    assert(!" target="@.contains('"'));
    assert(!"_blank"@.contains('"'));
    assert(!" rel="@.contains('"'));
    assert(!"noopener"@.contains('"'));
    assert(!">\n<img src="@.contains('"'));
    assert(!"/thumb/"@.contains('"'));
    assert("\" target=\"_blank\" rel=\"noopener\">\n<img src=\"/thumb/"@ =~= r0);
    text::split_without_separator(r6, '"');
    text::split_at_separator(">\n<img src="@, r6, '"');
    text::split_at_separator("noopener"@, r5, '"');
    text::split_at_separator(" rel="@, r4, '"');
    text::split_at_separator("_blank"@, r3, '"');
    text::split_at_separator(" target="@, r2, '"');
    text::split_at_separator(Seq::<char>::empty(), r1, '"');
    let pieces = seq![Seq::<char>::empty(), " target="@, "_blank"@, " rel="@, "noopener"@, ">\n<img src="@, "/thumb/"@];
    assert(text::split("\" target=\"_blank\" rel=\"noopener\">\n<img src=\"/thumb/"@, '"') =~= pieces);
    text::split_continues(t, done, last, "\" target=\"_blank\" rel=\"noopener\">\n<img src=\"/thumb/"@, pieces, '"');
    assert(last + Seq::<char>::empty() =~= last);
    assert(text::split(t + "\" target=\"_blank\" rel=\"noopener\">\n<img src=\"/thumb/"@, '"') =~= done.push(last)
            .push(" target="@)
            .push("_blank"@)
            .push(" rel="@)
            .push("noopener"@)
            .push(">\n<img src="@)
            .push("/thumb/"@));
}

/// What stands between the quotes of what comes before a thumbnail's text.
proof fn quotes_before_alt(t: Seq<char>, done: Seq<Seq<char>>, last: Seq<char>)
    requires
        text::split(t, '"') == done.push(last),
    ensures
        text::split(t + "\" alt=\""@, '"') == done.push(last)
            .push(" alt="@)
            .push(Seq::<char>::empty()),
{
    reveal_strlit("\" alt=\"");
    reveal_strlit(" alt=");
    let r2 = Seq::<char>::empty();
    let r1 = " alt="@.push('"') + r2;
    let r0 = Seq::<char>::empty().push('"') + r1;
    assert(!" alt="@.contains('"'));
    assert("\" alt=\""@ =~= r0);
    text::split_without_separator(r2, '"');
    text::split_at_separator(" alt="@, r2, '"');
    text::split_at_separator(Seq::<char>::empty(), r1, '"');
    let pieces = seq![Seq::<char>::empty(), " alt="@, Seq::<char>::empty()];
    assert(text::split("\" alt=\""@, '"') =~= pieces);
    text::split_continues(t, done, last, "\" alt=\""@, pieces, '"');
    assert(last + Seq::<char>::empty() =~= last);
    assert(text::split(t + "\" alt=\""@, '"') =~= done.push(last)
            .push(" alt="@)
            .push(Seq::<char>::empty()));
}

/// What stands between the quotes of what comes before a card's title.
proof fn quotes_before_title(t: Seq<char>, done: Seq<Seq<char>>, last: Seq<char>)
    requires
        text::split(t, '"') == done.push(last),
    ensures
        text::split(t + "\" loading=\"lazy\">\n</a><div class=\"card-info\">\n<span class=\"card-name\" title=\""@, '"') == done.push(last)
            .push(" loading="@)
            .push("lazy"@)
            .push(">\n</a><div class="@)
            .push("card-info"@)
            .push(">\n<span class="@)
            .push("card-name"@)
            .push(" title="@)
            .push(Seq::<char>::empty()),
{
    reveal_strlit("\" loading=\"lazy\">\n</a><div class=\"card-info\">\n<span class=\"card-name\" title=\"");
    reveal_strlit(" loading=");
    reveal_strlit("lazy");
    reveal_strlit(">\n</a><div class=");
    reveal_strlit("card-info");
    reveal_strlit(">\n<span class=");
    reveal_strlit("card-name");
    reveal_strlit(" title=");
    let r8 = Seq::<char>::empty();
    let r7 = " title="@.push('"') + r8;
    let r6 = "card-name"@.push('"') + r7;
    let r5 = ">\n<span class="@.push('"') + r6;
    let r4 = "card-info"@.push('"') + r5;
    let r3 = ">\n</a><div class="@.push('"') + r4;
    let r2 = "lazy"@.push('"') + r3;
    let r1 = " loading="@.push('"') + r2;
    let r0 = Seq::<char>::empty().push('"') + r1;
    assert(!" loading="@.contains('"'));
    assert(!"lazy"@.contains('"'));
    assert(!">\n</a><div class="@.contains('"'));
    assert(!"card-info"@.contains('"'));
    assert(!">\n<span class="@.contains('"'));
    assert(!"card-name"@.contains('"'));
    assert(!" title="@.contains('"'));
    assert("\" loading=\"lazy\">\n</a><div class=\"card-info\">\n<span class=\"card-name\" title=\""@ =~= r0);
    text::split_without_separator(r8, '"');
    text::split_at_separator(" title="@, r8, '"');
    text::split_at_separator("card-name"@, r7, '"');
    text::split_at_separator(">\n<span class="@, r6, '"');
    text::split_at_separator("card-info"@, r5, '"');
    text::split_at_separator(">\n</a><div class="@, r4, '"');
    text::split_at_separator("lazy"@, r3, '"');
    text::split_at_separator(" loading="@, r2, '"');
    text::split_at_separator(Seq::<char>::empty(), r1, '"');
    let pieces = seq![Seq::<char>::empty(), " loading="@, "lazy"@, ">\n</a><div class="@, "card-info"@, ">\n<span class="@, "card-name"@, " title="@, Seq::<char>::empty()];
    assert(text::split("\" loading=\"lazy\">\n</a><div class=\"card-info\">\n<span class=\"card-name\" title=\""@, '"') =~= pieces);
    text::split_continues(t, done, last, "\" loading=\"lazy\">\n</a><div class=\"card-info\">\n<span class=\"card-name\" title=\""@, pieces, '"');
    assert(last + Seq::<char>::empty() =~= last);
    assert(text::split(t + "\" loading=\"lazy\">\n</a><div class=\"card-info\">\n<span class=\"card-name\" title=\""@, '"') =~= done.push(last)
            .push(" loading="@)
            .push("lazy"@)
            .push(">\n</a><div class="@)
            .push("card-info"@)
            .push(">\n<span class="@)
            .push("card-name"@)
            .push(" title="@)
            .push(Seq::<char>::empty()));
}

/// What stands between the quotes of the end of a tag.
proof fn quotes_of_tag_end(t: Seq<char>, done: Seq<Seq<char>>, last: Seq<char>)
    requires
        text::split(t, '"') == done.push(last),
    ensures
        text::split(t + "\">"@, '"') == done.push(last)
            .push(">"@),
{
    reveal_strlit("\">");
    reveal_strlit(">");
    let r1 = ">"@;
    let r0 = Seq::<char>::empty().push('"') + r1;
    assert(!">"@.contains('"'));
    assert("\">"@ =~= r0);
    text::split_without_separator(r1, '"');
    text::split_at_separator(Seq::<char>::empty(), r1, '"');
    let pieces = seq![Seq::<char>::empty(), ">"@];
    assert(text::split("\">"@, '"') =~= pieces);
    text::split_continues(t, done, last, "\">"@, pieces, '"');
    assert(last + Seq::<char>::empty() =~= last);
    assert(text::split(t + "\">"@, '"') =~= done.push(last)
            .push(">"@));
}

/// What stands between the quotes of what comes before the link to save.
proof fn quotes_before_download(t: Seq<char>, done: Seq<Seq<char>>, last: Seq<char>)
    requires
        text::split(t, '"') == done.push(last),
    ensures
        text::split(t + "</span>\n<div class=\"card-actions\">\n<a class=\"btn btn-dl\" href=\"/download/"@, '"') == done.push(last + "</span>\n<div class="@)
            .push("card-actions"@)
            .push(">\n<a class="@)
            .push("btn btn-dl"@)
            .push(" href="@)
            .push("/download/"@),
{
    reveal_strlit("</span>\n<div class=\"card-actions\">\n<a class=\"btn btn-dl\" href=\"/download/");
    reveal_strlit("</span>\n<div class=");
    reveal_strlit("card-actions");
    reveal_strlit(">\n<a class=");
    reveal_strlit("btn btn-dl");
    reveal_strlit(" href=");
    reveal_strlit("/download/");
    let r5 = "/download/"@;
    let r4 = " href="@.push('"') + r5;
    let r3 = "btn btn-dl"@.push('"') + r4;
    let r2 = ">\n<a class="@.push('"') + r3;
    let r1 = "card-actions"@.push('"') + r2;
    let r0 = "</span>\n<div class="@.push('"') + r1;
    assert(!"</span>\n<div class="@.contains('"'));
    assert(!"card-actions"@.contains('"'));
    assert(!">\n<a class="@.contains('"'));
    assert(!"btn btn-dl"@.contains('"'));
    assert(!" href="@.contains('"'));
    assert(!"/download/"@.contains('"'));
    assert("</span>\n<div class=\"card-actions\">\n<a class=\"btn btn-dl\" href=\"/download/"@ =~= r0);
    text::split_without_separator(r5, '"');
    text::split_at_separator(" href="@, r5, '"');
    text::split_at_separator("btn btn-dl"@, r4, '"');
    text::split_at_separator(">\n<a class="@, r3, '"');
    text::split_at_separator("card-actions"@, r2, '"');
    text::split_at_separator("</span>\n<div class="@, r1, '"');
    let pieces = seq!["</span>\n<div class="@, "card-actions"@, ">\n<a class="@, "btn btn-dl"@, " href="@, "/download/"@];
    assert(text::split("</span>\n<div class=\"card-actions\">\n<a class=\"btn btn-dl\" href=\"/download/"@, '"') =~= pieces);
    text::split_continues(t, done, last, "</span>\n<div class=\"card-actions\">\n<a class=\"btn btn-dl\" href=\"/download/"@, pieces, '"');
    assert(text::split(t + "</span>\n<div class=\"card-actions\">\n<a class=\"btn btn-dl\" href=\"/download/"@, '"') =~= done.push(last + "</span>\n<div class="@)
            .push("card-actions"@)
            .push(">\n<a class="@)
            .push("btn btn-dl"@)
            .push(" href="@)
            .push("/download/"@));
}

/// What stands between the quotes of what comes before a button's state.
proof fn quotes_before_button(t: Seq<char>, done: Seq<Seq<char>>, last: Seq<char>)
    requires
        text::split(t, '"') == done.push(last),
    ensures
        text::split(t + "\" title=\"Download\">&#8615;</a>\n<button class=\"btn btn-mark"@, '"') == done.push(last)
            .push(" title="@)
            .push("Download"@)
            .push(">&#8615;</a>\n<button class="@)
            .push("btn btn-mark"@),
{
    reveal_strlit("\" title=\"Download\">&#8615;</a>\n<button class=\"btn btn-mark");
    reveal_strlit(" title=");
    reveal_strlit("Download");
    reveal_strlit(">&#8615;</a>\n<button class=");
    reveal_strlit("btn btn-mark");
    let r4 = "btn btn-mark"@;
    let r3 = ">&#8615;</a>\n<button class="@.push('"') + r4;
    let r2 = "Download"@.push('"') + r3;
    let r1 = " title="@.push('"') + r2;
    let r0 = Seq::<char>::empty().push('"') + r1;
    assert(!" title="@.contains('"'));
    assert(!"Download"@.contains('"'));
    assert(!">&#8615;</a>\n<button class="@.contains('"'));
    assert(!"btn btn-mark"@.contains('"'));
    assert("\" title=\"Download\">&#8615;</a>\n<button class=\"btn btn-mark"@ =~= r0);
    text::split_without_separator(r4, '"');
    text::split_at_separator(">&#8615;</a>\n<button class="@, r4, '"');
    text::split_at_separator("Download"@, r3, '"');
    text::split_at_separator(" title="@, r2, '"');
    text::split_at_separator(Seq::<char>::empty(), r1, '"');
    let pieces = seq![Seq::<char>::empty(), " title="@, "Download"@, ">&#8615;</a>\n<button class="@, "btn btn-mark"@];
    assert(text::split("\" title=\"Download\">&#8615;</a>\n<button class=\"btn btn-mark"@, '"') =~= pieces);
    text::split_continues(t, done, last, "\" title=\"Download\">&#8615;</a>\n<button class=\"btn btn-mark"@, pieces, '"');
    assert(last + Seq::<char>::empty() =~= last);
    assert(text::split(t + "\" title=\"Download\">&#8615;</a>\n<button class=\"btn btn-mark"@, '"') =~= done.push(last)
            .push(" title="@)
            .push("Download"@)
            .push(">&#8615;</a>\n<button class="@)
            .push("btn btn-mark"@));
}

/// What stands between the quotes of what comes before a button's call.
proof fn quotes_before_call(t: Seq<char>, done: Seq<Seq<char>>, last: Seq<char>)
    requires
        text::split(t, '"') == done.push(last),
    ensures
        text::split(t + "\" onclick=\"toggleMark("@, '"') == done.push(last)
            .push(" onclick="@)
            .push("toggleMark("@),
{
    reveal_strlit("\" onclick=\"toggleMark(");
    reveal_strlit(" onclick=");
    reveal_strlit("toggleMark(");
    let r2 = "toggleMark("@;
    let r1 = " onclick="@.push('"') + r2;
    let r0 = Seq::<char>::empty().push('"') + r1;
    assert(!" onclick="@.contains('"'));
    assert(!"toggleMark("@.contains('"'));
    assert("\" onclick=\"toggleMark("@ =~= r0);
    text::split_without_separator(r2, '"');
    text::split_at_separator(" onclick="@, r2, '"');
    text::split_at_separator(Seq::<char>::empty(), r1, '"');
    let pieces = seq![Seq::<char>::empty(), " onclick="@, "toggleMark("@];
    assert(text::split("\" onclick=\"toggleMark("@, '"') =~= pieces);
    text::split_continues(t, done, last, "\" onclick=\"toggleMark("@, pieces, '"');
    assert(last + Seq::<char>::empty() =~= last);
    assert(text::split(t + "\" onclick=\"toggleMark("@, '"') =~= done.push(last)
            .push(" onclick="@)
            .push("toggleMark("@));
}

/// What stands between the quotes of the end of a card.
proof fn quotes_of_card_end(t: Seq<char>, done: Seq<Seq<char>>, last: Seq<char>)
    requires
        text::split(t, '"') == done.push(last),
    ensures
        text::split(t + "',this)\" title=\"Mark downloaded\">&#10003;</button>\n</div></div></div>"@, '"') == done.push(last + "',this)"@)
            .push(" title="@)
            .push("Mark downloaded"@)
            .push(">&#10003;</button>\n</div></div></div>"@),
{
    reveal_strlit("',this)\" title=\"Mark downloaded\">&#10003;</button>\n</div></div></div>");
    reveal_strlit("',this)");
    reveal_strlit(" title=");
    reveal_strlit("Mark downloaded");
    reveal_strlit(">&#10003;</button>\n</div></div></div>");
    let r3 = ">&#10003;</button>\n</div></div></div>"@;
    let r2 = "Mark downloaded"@.push('"') + r3;
    let r1 = " title="@.push('"') + r2;
    let r0 = "',this)"@.push('"') + r1;
    assert(!"',this)"@.contains('"'));
    assert(!" title="@.contains('"'));
    assert(!"Mark downloaded"@.contains('"'));
    assert(!">&#10003;</button>\n</div></div></div>"@.contains('"'));
    assert("',this)\" title=\"Mark downloaded\">&#10003;</button>\n</div></div></div>"@ =~= r0);
    text::split_without_separator(r3, '"');
    text::split_at_separator("Mark downloaded"@, r3, '"');
    text::split_at_separator(" title="@, r2, '"');
    text::split_at_separator("',this)"@, r1, '"');
    let pieces = seq!["',this)"@, " title="@, "Mark downloaded"@, ">&#10003;</button>\n</div></div></div>"@];
    assert(text::split("',this)\" title=\"Mark downloaded\">&#10003;</button>\n</div></div></div>"@, '"') =~= pieces);
    text::split_continues(t, done, last, "',this)\" title=\"Mark downloaded\">&#10003;</button>\n</div></div></div>"@, pieces, '"');
    assert(text::split(t + "',this)\" title=\"Mark downloaded\">&#10003;</button>\n</div></div></div>"@, '"') =~= done.push(last + "',this)"@)
            .push(" title="@)
            .push("Mark downloaded"@)
            .push(">&#10003;</button>\n</div></div></div>"@));
}

/// The words of a card have no quotes in them.
proof fn words_have_no_quotes()
    ensures
        !"card downloaded"@.contains('"'),
        !"card"@.contains('"'),
        !" active"@.contains('"'),
        !""@.contains('"'),
        !"/"@.contains('"'),
        !",'"@.contains('"'),
{
    reveal_strlit("card downloaded");
    reveal_strlit("card");
    reveal_strlit(" active");
    reveal_strlit("");
    reveal_strlit("/");
    reveal_strlit(",'");
}

/// What stands between the quotes of a card.
#[verifier::spinoff_prover]
#[verifier::rlimit(60)]
proof fn card_between_quotes(
    dir_idx: nat,
    name: Seq<char>,
    rel_path: Seq<char>,
    hash: nat,
    marked: bool,
)
    requires
        !rel_path.contains('"'),
        !escape::js_escape(rel_path).contains('"'),
    ensures
        ({
            let q = text::split(card_text(dir_idx, name, rel_path, hash, marked), '"');
            let idx = text::decimal(dir_idx);
            let shown = escape::html_escape(name);
            let js = escape::js_escape(rel_path);
            let class = if marked {
                "card downloaded"@
            } else {
                "card"@
            };
            let active = if marked {
                " active"@
            } else {
                ""@
            };
            q == Seq::<Seq<char>>::empty()
                .push("<div class="@)
                .push(class)
                .push(" id="@)
                .push("c"@ + text::decimal(hash))
                .push(">\n<a href="@)
                .push("/image/"@ + idx + "/"@ + rel_path)
                .push(" target="@)
                .push("_blank"@)
                .push(" rel="@)
                .push("noopener"@)
                .push(">\n<img src="@)
                .push("/thumb/"@ + idx + "/"@ + rel_path)
                .push(" alt="@)
                .push(shown)
                .push(" loading="@)
                .push("lazy"@)
                .push(">\n</a><div class="@)
                .push("card-info"@)
                .push(">\n<span class="@)
                .push("card-name"@)
                .push(" title="@)
                .push(shown)
                .push(">"@ + shown + "</span>\n<div class="@)
                .push("card-actions"@)
                .push(">\n<a class="@)
                .push("btn btn-dl"@)
                .push(" href="@)
                .push("/download/"@ + idx + "/"@ + rel_path)
                .push(" title="@)
                .push("Download"@)
                .push(">&#8615;</a>\n<button class="@)
                .push("btn btn-mark"@ + active)
                .push(" onclick="@)
                .push("toggleMark("@ + idx + ",'"@ + js + "',this)"@)
                .push(" title="@)
                .push("Mark downloaded"@)
                .push(">&#10003;</button>\n</div></div></div>"@)
        }),
{
    let idx = text::decimal(dir_idx);
    let shown = escape::html_escape(name);
    let js = escape::js_escape(rel_path);
    let class = if marked {
        "card downloaded"@
    } else {
        "card"@
    };
    let active = if marked {
        " active"@
    } else {
        ""@
    };
    decimal_is_number(dir_idx);
    decimal_is_number(hash);
    shown_has_no_quotes(name);
    words_have_no_quotes();
    quotes_of_card_start();
    let t1 = "<div class=\""@;
    let d1 = Seq::<Seq<char>>::empty().push("<div class="@);
    text::split_grows(t1, d1, Seq::<char>::empty(), class, '"');
    let t2 = t1 + class;
    let d2 = d1;
    assert(Seq::<char>::empty() + class =~= class);
    quotes_before_id(t2, d2, class);
    let t3 = t2 + "\" id=\"c"@;
    let d3 = d2.push(class).push(" id="@);
    text::split_grows(t3, d3, "c"@, text::decimal(hash), '"');
    let t4 = t3 + text::decimal(hash);
    let d4 = d3;
    quotes_before_image(t4, d4, "c"@ + text::decimal(hash));
    let t5 = t4 + "\">\n<a href=\"/image/"@;
    let d5 = d4.push("c"@ + text::decimal(hash)).push(">\n<a href="@);
    text::split_grows(t5, d5, "/image/"@, idx, '"');
    let t6 = t5 + idx;
    let d6 = d5;
    text::split_grows(t6, d6, "/image/"@ + idx, "/"@, '"');
    let t7 = t6 + "/"@;
    let d7 = d6;
    text::split_grows(t7, d7, "/image/"@ + idx + "/"@, rel_path, '"');
    let t8 = t7 + rel_path;
    let d8 = d7;
    quotes_before_thumb(t8, d8, "/image/"@ + idx + "/"@ + rel_path);
    let t9 = t8 + "\" target=\"_blank\" rel=\"noopener\">\n<img src=\"/thumb/"@;
    let d9 = d8.push("/image/"@ + idx + "/"@ + rel_path).push(" target="@).push("_blank"@).push(" rel="@).push("noopener"@).push(">\n<img src="@);
    text::split_grows(t9, d9, "/thumb/"@, idx, '"');
    let t10 = t9 + idx;
    let d10 = d9;
    text::split_grows(t10, d10, "/thumb/"@ + idx, "/"@, '"');
    let t11 = t10 + "/"@;
    let d11 = d10;
    text::split_grows(t11, d11, "/thumb/"@ + idx + "/"@, rel_path, '"');
    let t12 = t11 + rel_path;
    let d12 = d11;
    quotes_before_alt(t12, d12, "/thumb/"@ + idx + "/"@ + rel_path);
    let t13 = t12 + "\" alt=\""@;
    let d13 = d12.push("/thumb/"@ + idx + "/"@ + rel_path).push(" alt="@);
    text::split_grows(t13, d13, Seq::<char>::empty(), shown, '"');
    let t14 = t13 + shown;
    let d14 = d13;
    assert(Seq::<char>::empty() + shown =~= shown);
    quotes_before_title(t14, d14, shown);
    let t15 = t14 + "\" loading=\"lazy\">\n</a><div class=\"card-info\">\n<span class=\"card-name\" title=\""@;
    let d15 = d14.push(shown).push(" loading="@).push("lazy"@).push(">\n</a><div class="@).push("card-info"@).push(">\n<span class="@).push("card-name"@).push(" title="@);
    text::split_grows(t15, d15, Seq::<char>::empty(), shown, '"');
    let t16 = t15 + shown;
    let d16 = d15;
    assert(Seq::<char>::empty() + shown =~= shown);
    quotes_of_tag_end(t16, d16, shown);
    let t17 = t16 + "\">"@;
    let d17 = d16.push(shown);
    text::split_grows(t17, d17, ">"@, shown, '"');
    let t18 = t17 + shown;
    let d18 = d17;
    quotes_before_download(t18, d18, ">"@ + shown);
    let t19 = t18 + "</span>\n<div class=\"card-actions\">\n<a class=\"btn btn-dl\" href=\"/download/"@;
    let d19 = d18.push(">"@ + shown + "</span>\n<div class="@).push("card-actions"@).push(">\n<a class="@).push("btn btn-dl"@).push(" href="@);
    text::split_grows(t19, d19, "/download/"@, idx, '"');
    let t20 = t19 + idx;
    let d20 = d19;
    text::split_grows(t20, d20, "/download/"@ + idx, "/"@, '"');
    let t21 = t20 + "/"@;
    let d21 = d20;
    text::split_grows(t21, d21, "/download/"@ + idx + "/"@, rel_path, '"');
    let t22 = t21 + rel_path;
    let d22 = d21;
    quotes_before_button(t22, d22, "/download/"@ + idx + "/"@ + rel_path);
    let t23 = t22 + "\" title=\"Download\">&#8615;</a>\n<button class=\"btn btn-mark"@;
    let d23 = d22.push("/download/"@ + idx + "/"@ + rel_path).push(" title="@).push("Download"@).push(">&#8615;</a>\n<button class="@);
    text::split_grows(t23, d23, "btn btn-mark"@, active, '"');
    let t24 = t23 + active;
    let d24 = d23;
    quotes_before_call(t24, d24, "btn btn-mark"@ + active);
    let t25 = t24 + "\" onclick=\"toggleMark("@;
    let d25 = d24.push("btn btn-mark"@ + active).push(" onclick="@);
    text::split_grows(t25, d25, "toggleMark("@, idx, '"');
    let t26 = t25 + idx;
    let d26 = d25;
    text::split_grows(t26, d26, "toggleMark("@ + idx, ",'"@, '"');
    let t27 = t26 + ",'"@;
    let d27 = d26;
    text::split_grows(t27, d27, "toggleMark("@ + idx + ",'"@, js, '"');
    let t28 = t27 + js;
    let d28 = d27;
    quotes_of_card_end(t28, d28, "toggleMark("@ + idx + ",'"@ + js);
    let t29 = t28 + "',this)\" title=\"Mark downloaded\">&#10003;</button>\n</div></div></div>"@;
    let d29 = d28.push("toggleMark("@ + idx + ",'"@ + js + "',this)"@).push(" title="@).push("Mark downloaded"@);
    assert(card_text(dir_idx, name, rel_path, hash, marked) == t29);
}

/// What a card leads to. Between its quotes stand the links to the image, its
/// thumbnail and its download, and the call for its mark: each for the path of the
/// image below the directory with the number shown. Its class and its button's say
/// whether the image is marked, by the text of its path; and its texts are the name.
#[verifier::spinoff_prover]
#[verifier::rlimit(60)]
pub proof fn cards_lead_to_their_image(
    dir_idx: nat,
    sub_path: Seq<char>,
    dir: Seq<u8>,
    marks: Set<Seq<char>>,
    name: Seq<char>,
)
    ensures
        ({
            let q = text::split(image_card(dir_idx, sub_path, dir, marks, name), '"');
            let path = if sub_path.len() == 0 {
                name
            } else {
                sub_path + "/"@ + name
            };
            let key = path::lossy_utf8(path::joined(dir, encode_utf8(name)));
            &&& q.len() == 37
            &&& q[0] == "<div class="@
            &&& q[1] == if marks.contains(key) {
                "card downloaded"@
            } else {
                "card"@
            }
            &&& q[2] == " id="@
            &&& q[3].len() > 1 && q[3][0] == 'c' && is_number(q[3].skip(1), escape::dom_hash(key))
            &&& q[4] == ">\n<a href="@ && is_link(q[5], "image"@, dir_idx, path)
            &&& q[6] == " target="@ && q[7] == "_blank"@ && q[8] == " rel="@ && q[9] == "noopener"@
            &&& q[10] == ">\n<img src="@ && is_link(q[11], "thumb"@, dir_idx, path)
            &&& q[12] == " alt="@ && escape::html_read(q[13]) == name
            &&& q[14] == " loading="@ && q[15] == "lazy"@
            &&& q[16] == ">\n</a><div class="@ && q[17] == "card-info"@
            &&& q[18] == ">\n<span class="@ && q[19] == "card-name"@
            &&& q[20] == " title="@ && escape::html_read(q[21]) == name
            &&& q[22] == ">"@ + q[21] + "</span>\n<div class="@ && q[23] == "card-actions"@
            &&& q[24] == ">\n<a class="@ && q[25] == "btn btn-dl"@
            &&& q[26] == " href="@ && is_link(q[27], "download"@, dir_idx, path)
            &&& q[28] == " title="@ && q[29] == "Download"@
            &&& q[30] == ">&#8615;</a>\n<button class="@
            &&& q[31] == if marks.contains(key) {
                "btn btn-mark active"@
            } else {
                "btn btn-mark"@
            }
            &&& q[32] == " onclick="@ && is_call(q[33], dir_idx, path)
            &&& q[34] == " title="@ && q[35] == "Mark downloaded"@
            &&& q[36] == ">&#10003;</button>\n</div></div></div>"@
        }),
{
    let key = mark_key(dir, name);
    let t = link_path(sub_path, name);
    let idx = text::decimal(dir_idx);
    let hash = escape::dom_hash(key);
    let marked = marks.contains(key);
    link_has_no_quotes(sub_path, name);
    card_between_quotes(dir_idx, name, t, hash, marked);
    escape::html_reads_back(name);
    decimal_is_number(hash);
    reveal_strlit("c");
    assert(("c"@ + text::decimal(hash)).skip(1) =~= text::decimal(hash));
    reveal_strlit("btn btn-mark");
    reveal_strlit(" active");
    reveal_strlit("");
    reveal_strlit("btn btn-mark active");
    assert("btn btn-mark"@ + " active"@ =~= "btn btn-mark active"@);
    assert("btn btn-mark"@ + ""@ =~= "btn btn-mark"@);
    reveal_strlit("/");
    reveal_strlit("image");
    reveal_strlit("thumb");
    reveal_strlit("download");
    reveal_strlit("/image/");
    reveal_strlit("/thumb/");
    reveal_strlit("/download/");
    assert("/image/"@ =~= "/"@ + "image"@ + "/"@);
    assert("/thumb/"@ =~= "/"@ + "thumb"@ + "/"@);
    assert("/download/"@ =~= "/"@ + "download"@ + "/"@);
    link_reads("image"@, dir_idx, sub_path, name);
    link_reads("thumb"@, dir_idx, sub_path, name);
    link_reads("download"@, dir_idx, sub_path, name);
    call_reads(dir_idx, sub_path, name);
}

/// The call of a card's button is read as one for its image's mark.
proof fn call_reads(number: nat, sub_path: Seq<char>, name: Seq<char>)
    ensures
        is_call(
            "toggleMark("@ + text::decimal(number) + ",'"@ + escape::js_escape(
                link_path(sub_path, name),
            ) + "',this)"@,
            number,
            if sub_path.len() == 0 {
                name
            } else {
                sub_path + "/"@ + name
            },
        ),
{
    let idx = text::decimal(number);
    let t = link_path(sub_path, name);
    let js = escape::js_escape(t);
    let call = "toggleMark("@ + idx + ",'"@ + js + "',this)"@;
    decimal_is_number(number);
    link_has_no_quotes(sub_path, name);
    escape::js_reads_back(t);
    reveal_strlit("toggleMark(");
    reveal_strlit(",'");
    reveal_strlit("',this)");
    reveal_strlit(",this)");
    let front = "toggleMark("@ + idx + seq![','];
    let rest = js.push('\'') + ",this)"@;
    assert(call =~= front.push('\'') + rest);
    assert forall|i: int| 0 <= i < front.len() implies front[i] != '\'' by {
        if 11 <= i < front.len() - 1 {
            assert(front[i] == idx[i - 11]);
            assert(idx.contains(idx[i - 11]));
        }
    }
    assert(!",this)"@.contains('\''));
    text::split_at_separator(front, rest, '\'');
    text::split_at_separator(js, ",this)"@, '\'');
    text::split_without_separator(",this)"@, '\'');
    let parts = text::split(call, '\'');
    assert(parts =~= seq![front, js, ",this)"@]);
    assert(front.take(11) =~= "toggleMark("@);
    assert(front.subrange(11, front.len() - 1) =~= idx);
}

/// What stands between the quotes of the picture before a name.
proof fn quotes_of_icon(t: Seq<char>, done: Seq<Seq<char>>, last: Seq<char>)
    requires
        text::split(t, '"') == done.push(last),
    ensures
        text::split(t + FOLDER_ICON@, '"') == done.push(last + "<span class="@)
            .push("folder-icon"@)
            .push(">&#128193;</span>"@),
{
    reveal_strlit("<span class=\"folder-icon\">&#128193;</span>");
    reveal_strlit("<span class=");
    reveal_strlit("folder-icon");
    reveal_strlit(">&#128193;</span>");
    let r2 = ">&#128193;</span>"@;
    let r1 = "folder-icon"@.push('"') + r2;
    let r0 = "<span class="@.push('"') + r1;
    assert(!"<span class="@.contains('"'));
    assert(!"folder-icon"@.contains('"'));
    assert(!">&#128193;</span>"@.contains('"'));
    assert(FOLDER_ICON@ =~= r0);
    text::split_without_separator(r2, '"');
    text::split_at_separator("folder-icon"@, r2, '"');
    text::split_at_separator("<span class="@, r1, '"');
    let pieces = seq!["<span class="@, "folder-icon"@, ">&#128193;</span>"@];
    assert(text::split(FOLDER_ICON@, '"') =~= pieces);
    text::split_continues(t, done, last, FOLDER_ICON@, pieces, '"');
    assert(text::split(t + FOLDER_ICON@, '"') =~= done.push(last + "<span class="@)
            .push("folder-icon"@)
            .push(">&#128193;</span>"@));
}

/// What stands between the quotes of what comes before the link to a subdirectory.
proof fn quotes_before_subdir()
    ensures
        text::split("<a class=\"dir-link\" href=\"/browse/"@, '"') == Seq::<Seq<char>>::empty()
            .push("<a class="@)
            .push("dir-link"@)
            .push(" href="@)
            .push("/browse/"@),
{
    reveal_strlit("<a class=\"dir-link\" href=\"/browse/");
    reveal_strlit("<a class=");
    reveal_strlit("dir-link");
    reveal_strlit(" href=");
    reveal_strlit("/browse/");
    let r3 = "/browse/"@;
    let r2 = " href="@.push('"') + r3;
    let r1 = "dir-link"@.push('"') + r2;
    let r0 = "<a class="@.push('"') + r1;
    assert(!"<a class="@.contains('"'));
    assert(!"dir-link"@.contains('"'));
    assert(!" href="@.contains('"'));
    assert(!"/browse/"@.contains('"'));
    assert("<a class=\"dir-link\" href=\"/browse/"@ =~= r0);
    text::split_without_separator(r3, '"');
    text::split_at_separator(" href="@, r3, '"');
    text::split_at_separator("dir-link"@, r2, '"');
    text::split_at_separator("<a class="@, r1, '"');
    let pieces = seq!["<a class="@, "dir-link"@, " href="@, "/browse/"@];
    assert(text::split("<a class=\"dir-link\" href=\"/browse/"@, '"') =~= pieces);
    assert(pieces =~= Seq::<Seq<char>>::empty().push("<a class="@).push("dir-link"@).push(" href="@).push("/browse/"@));
}

/// What stands between the quotes of what comes before a link of the breadcrumb.
proof fn quotes_before_crumb()
    ensures
        text::split(" / <a href=\"/browse/"@, '"') == Seq::<Seq<char>>::empty()
            .push(" / <a href="@)
            .push("/browse/"@),
{
    reveal_strlit(" / <a href=\"/browse/");
    reveal_strlit(" / <a href=");
    reveal_strlit("/browse/");
    let r1 = "/browse/"@;
    let r0 = " / <a href="@.push('"') + r1;
    assert(!" / <a href="@.contains('"'));
    assert(!"/browse/"@.contains('"'));
    assert(" / <a href=\"/browse/"@ =~= r0);
    text::split_without_separator(r1, '"');
    text::split_at_separator(" / <a href="@, r1, '"');
    let pieces = seq![" / <a href="@, "/browse/"@];
    assert(text::split(" / <a href=\"/browse/"@, '"') =~= pieces);
    assert(pieces =~= Seq::<Seq<char>>::empty().push(" / <a href="@).push("/browse/"@));
}

/// What stands between the quotes of the start of the breadcrumb.
proof fn quotes_before_home()
    ensures
        text::split("<nav class=\"breadcrumb\"><a href=\"/\">Home</a> / <a href=\"/browse/"@, '"') == Seq::<Seq<char>>::empty()
            .push("<nav class="@)
            .push("breadcrumb"@)
            .push("><a href="@)
            .push("/"@)
            .push(">Home</a> / <a href="@)
            .push("/browse/"@),
{
    reveal_strlit("<nav class=\"breadcrumb\"><a href=\"/\">Home</a> / <a href=\"/browse/");
    reveal_strlit("<nav class=");
    reveal_strlit("breadcrumb");
    reveal_strlit("><a href=");
    reveal_strlit("/");
    reveal_strlit(">Home</a> / <a href=");
    reveal_strlit("/browse/");
    let r5 = "/browse/"@;
    let r4 = ">Home</a> / <a href="@.push('"') + r5;
    let r3 = "/"@.push('"') + r4;
    let r2 = "><a href="@.push('"') + r3;
    let r1 = "breadcrumb"@.push('"') + r2;
    let r0 = "<nav class="@.push('"') + r1;
    assert(!"<nav class="@.contains('"'));
    assert(!"breadcrumb"@.contains('"'));
    assert(!"><a href="@.contains('"'));
    assert(!"/"@.contains('"'));
    assert(!">Home</a> / <a href="@.contains('"'));
    assert(!"/browse/"@.contains('"'));
    assert("<nav class=\"breadcrumb\"><a href=\"/\">Home</a> / <a href=\"/browse/"@ =~= r0);
    text::split_without_separator(r5, '"');
    text::split_at_separator(">Home</a> / <a href="@, r5, '"');
    text::split_at_separator("/"@, r4, '"');
    text::split_at_separator("><a href="@, r3, '"');
    text::split_at_separator("breadcrumb"@, r2, '"');
    text::split_at_separator("<nav class="@, r1, '"');
    let pieces = seq!["<nav class="@, "breadcrumb"@, "><a href="@, "/"@, ">Home</a> / <a href="@, "/browse/"@];
    assert(text::split("<nav class=\"breadcrumb\"><a href=\"/\">Home</a> / <a href=\"/browse/"@, '"') =~= pieces);
    assert(pieces =~= Seq::<Seq<char>>::empty().push("<nav class="@).push("breadcrumb"@).push("><a href="@).push("/"@).push(">Home</a> / <a href="@).push("/browse/"@));
}

/// What stands between the quotes of the start of a link on the start page.
proof fn quotes_of_entry_start()
    ensures
        text::split("<a class=\""@, '"') == Seq::<Seq<char>>::empty()
            .push("<a class="@)
            .push(Seq::<char>::empty()),
{
    reveal_strlit("<a class=\"");
    reveal_strlit("<a class=");
    let r1 = Seq::<char>::empty();
    let r0 = "<a class="@.push('"') + r1;
    assert(!"<a class="@.contains('"'));
    assert("<a class=\""@ =~= r0);
    text::split_without_separator(r1, '"');
    text::split_at_separator("<a class="@, r1, '"');
    let pieces = seq!["<a class="@, Seq::<char>::empty()];
    assert(text::split("<a class=\""@, '"') =~= pieces);
    assert(pieces =~= Seq::<Seq<char>>::empty().push("<a class="@).push(Seq::<char>::empty()));
}

/// What stands between the quotes of what comes before its target.
proof fn quotes_before_entry(t: Seq<char>, done: Seq<Seq<char>>, last: Seq<char>)
    requires
        text::split(t, '"') == done.push(last),
    ensures
        text::split(t + "\" href=\"/browse/"@, '"') == done.push(last)
            .push(" href="@)
            .push("/browse/"@),
{
    reveal_strlit("\" href=\"/browse/");
    reveal_strlit(" href=");
    reveal_strlit("/browse/");
    let r2 = "/browse/"@;
    let r1 = " href="@.push('"') + r2;
    let r0 = Seq::<char>::empty().push('"') + r1;
    assert(!" href="@.contains('"'));
    assert(!"/browse/"@.contains('"'));
    assert("\" href=\"/browse/"@ =~= r0);
    text::split_without_separator(r2, '"');
    text::split_at_separator(" href="@, r2, '"');
    text::split_at_separator(Seq::<char>::empty(), r1, '"');
    let pieces = seq![Seq::<char>::empty(), " href="@, "/browse/"@];
    assert(text::split("\" href=\"/browse/"@, '"') =~= pieces);
    text::split_continues(t, done, last, "\" href=\"/browse/"@, pieces, '"');
    assert(last + Seq::<char>::empty() =~= last);
    assert(text::split(t + "\" href=\"/browse/"@, '"') =~= done.push(last)
            .push(" href="@)
            .push("/browse/"@));
}

/// What stands between the tags of the start of an error.
proof fn tags_before_status()
    ensures
        text::split("<h1>Error "@, '<') == Seq::<Seq<char>>::empty()
            .push(Seq::<char>::empty())
            .push("h1>Error "@),
{
    reveal_strlit("<h1>Error ");
    reveal_strlit("h1>Error ");
    let r1 = "h1>Error "@;
    let r0 = Seq::<char>::empty().push('<') + r1;
    assert(!"h1>Error "@.contains('<'));
    assert("<h1>Error "@ =~= r0);
    text::split_without_separator(r1, '<');
    text::split_at_separator(Seq::<char>::empty(), r1, '<');
    let pieces = seq![Seq::<char>::empty(), "h1>Error "@];
    assert(text::split("<h1>Error "@, '<') =~= pieces);
    assert(pieces =~= Seq::<Seq<char>>::empty().push(Seq::<char>::empty()).push("h1>Error "@));
}

/// What stands between the tags of what comes before the message.
proof fn tags_before_message(t: Seq<char>, done: Seq<Seq<char>>, last: Seq<char>)
    requires
        text::split(t, '<') == done.push(last),
    ensures
        text::split(t + "</h1><p>"@, '<') == done.push(last)
            .push("/h1>"@)
            .push("p>"@),
{
    reveal_strlit("</h1><p>");
    reveal_strlit("/h1>");
    reveal_strlit("p>");
    let r2 = "p>"@;
    let r1 = "/h1>"@.push('<') + r2;
    let r0 = Seq::<char>::empty().push('<') + r1;
    assert(!"/h1>"@.contains('<'));
    assert(!"p>"@.contains('<'));
    assert("</h1><p>"@ =~= r0);
    text::split_without_separator(r2, '<');
    text::split_at_separator("/h1>"@, r2, '<');
    text::split_at_separator(Seq::<char>::empty(), r1, '<');
    let pieces = seq![Seq::<char>::empty(), "/h1>"@, "p>"@];
    assert(text::split("</h1><p>"@, '<') =~= pieces);
    text::split_continues(t, done, last, "</h1><p>"@, pieces, '<');
    assert(last + Seq::<char>::empty() =~= last);
    assert(text::split(t + "</h1><p>"@, '<') =~= done.push(last)
            .push("/h1>"@)
            .push("p>"@));
}

/// What stands between the tags of what comes behind it.
proof fn tags_after_message(t: Seq<char>, done: Seq<Seq<char>>, last: Seq<char>)
    requires
        text::split(t, '<') == done.push(last),
    ensures
        text::split(t + "</p><a href=\"/\">Back to home</a>"@, '<') == done.push(last)
            .push("/p>"@)
            .push("a href=\"/\">Back to home"@)
            .push("/a>"@),
{
    reveal_strlit("</p><a href=\"/\">Back to home</a>");
    reveal_strlit("/p>");
    reveal_strlit("a href=\"/\">Back to home");
    reveal_strlit("/a>");
    let r3 = "/a>"@;
    let r2 = "a href=\"/\">Back to home"@.push('<') + r3;
    let r1 = "/p>"@.push('<') + r2;
    let r0 = Seq::<char>::empty().push('<') + r1;
    assert(!"/p>"@.contains('<'));
    assert(!"a href=\"/\">Back to home"@.contains('<'));
    assert(!"/a>"@.contains('<'));
    assert("</p><a href=\"/\">Back to home</a>"@ =~= r0);
    text::split_without_separator(r3, '<');
    text::split_at_separator("a href=\"/\">Back to home"@, r3, '<');
    text::split_at_separator("/p>"@, r2, '<');
    text::split_at_separator(Seq::<char>::empty(), r1, '<');
    let pieces = seq![Seq::<char>::empty(), "/p>"@, "a href=\"/\">Back to home"@, "/a>"@];
    assert(text::split("</p><a href=\"/\">Back to home</a>"@, '<') =~= pieces);
    text::split_continues(t, done, last, "</p><a href=\"/\">Back to home</a>"@, pieces, '<');
    assert(last + Seq::<char>::empty() =~= last);
    assert(text::split(t + "</p><a href=\"/\">Back to home</a>"@, '<') =~= done.push(last)
            .push("/p>"@)
            .push("a href=\"/\">Back to home"@)
            .push("/a>"@));
}

/// The words of a link have no quotes in them.
proof fn link_words_have_no_quotes()
    ensures
        !"/"@.contains('"'),
        !" "@.contains('"'),
        !"</a>"@.contains('"'),
        !"</nav>"@.contains('"'),
        !"dir-link"@.contains('"'),
        !"dir-link disabled"@.contains('"'),
{
    reveal_strlit("/");
    reveal_strlit(" ");
    reveal_strlit("</a>");
    reveal_strlit("</nav>");
    reveal_strlit("dir-link");
    reveal_strlit("dir-link disabled");
}

/// The link to a subdirectory leads to the subdirectory, by its path below the
/// directory with the number shown, and shows its name behind the picture.
pub proof fn subdir_links_lead_there(dir_idx: nat, sub_path: Seq<char>, name: Seq<char>)
    ensures
        ({
            let q = text::split(subdir_text(dir_idx, sub_path, name), '"');
            let path = if sub_path.len() == 0 {
                name
            } else {
                sub_path + "/"@ + name
            };
            let n = q[6].len() - 4;
            &&& q.len() == 7
            &&& q[0] == "<a class="@ && q[1] == "dir-link"@
            &&& q[2] == " href="@ && is_link(q[3], "browse"@, dir_idx, path)
            &&& q[4] == "><span class="@ && q[5] == "folder-icon"@
            &&& n >= 18
            &&& q[6].take(18) == ">&#128193;</span> "@
            &&& escape::html_read(q[6].subrange(18, n)) == name
            &&& q[6].skip(n) == "</a>"@
        }),
{
    let idx = text::decimal(dir_idx);
    let rel_path = link_path(sub_path, name);
    let shown = escape::html_escape(name);
    decimal_is_number(dir_idx);
    shown_has_no_quotes(name);
    link_has_no_quotes(sub_path, name);
    link_words_have_no_quotes();
    quotes_before_subdir();
    let t1 = "<a class=\"dir-link\" href=\"/browse/"@;
    let d1 = Seq::<Seq<char>>::empty().push("<a class="@).push("dir-link"@).push(" href="@);
    text::split_grows(t1, d1, "/browse/"@, idx, '"');
    let t2 = t1 + idx;
    let d2 = d1;
    text::split_grows(t2, d2, "/browse/"@ + idx, "/"@, '"');
    let t3 = t2 + "/"@;
    let d3 = d2;
    text::split_grows(t3, d3, "/browse/"@ + idx + "/"@, rel_path, '"');
    let t4 = t3 + rel_path;
    let d4 = d3;
    quotes_of_tag_end(t4, d4, "/browse/"@ + idx + "/"@ + rel_path);
    let t5 = t4 + "\">"@;
    let d5 = d4.push("/browse/"@ + idx + "/"@ + rel_path);
    quotes_of_icon(t5, d5, ">"@);
    let t6 = t5 + FOLDER_ICON@;
    let d6 = d5.push(">"@ + "<span class="@).push("folder-icon"@);
    text::split_grows(t6, d6, ">&#128193;</span>"@, " "@, '"');
    let t7 = t6 + " "@;
    let d7 = d6;
    text::split_grows(t7, d7, ">&#128193;</span>"@ + " "@, shown, '"');
    let t8 = t7 + shown;
    let d8 = d7;
    text::split_grows(t8, d8, ">&#128193;</span>"@ + " "@ + shown, "</a>"@, '"');
    let t9 = t8 + "</a>"@;
    let d9 = d8;
    assert(subdir_text(dir_idx, sub_path, name) == t9);
    let q = text::split(subdir_text(dir_idx, sub_path, name), '"');
    let link = "/browse/"@ + idx + "/"@ + rel_path;
    assert(q[3] == link);
    reveal_strlit("/");
    reveal_strlit("browse");
    reveal_strlit("/browse/");
    assert("/browse/"@ =~= "/"@ + "browse"@ + "/"@);
    link_reads("browse"@, dir_idx, sub_path, name);
    reveal_strlit(">");
    reveal_strlit("<span class=");
    reveal_strlit("><span class=");
    assert(">"@ + "<span class="@ =~= "><span class="@);
    icon_and_name_read(q[6], name);
}

/// What stands behind the quotes of a link with a picture is the picture's end and
/// the name.
proof fn icon_and_name_read(t: Seq<char>, name: Seq<char>)
    requires
        t == ">&#128193;</span>"@ + " "@ + escape::html_escape(name) + "</a>"@,
    ensures
        t.len() >= 22,
        t.take(18) == ">&#128193;</span> "@,
        escape::html_read(t.subrange(18, t.len() - 4)) == name,
        t.skip(t.len() - 4) == "</a>"@,
{
    reveal_strlit(">&#128193;</span>");
    reveal_strlit(" ");
    reveal_strlit(">&#128193;</span> ");
    reveal_strlit("</a>");
    assert(t.take(18) =~= ">&#128193;</span> "@);
    assert(t.subrange(18, t.len() - 4) =~= escape::html_escape(name));
    assert(t.skip(t.len() - 4) =~= "</a>"@);
    escape::html_reads_back(name);
}

/// A link of the breadcrumb leads to the directory that the first components of the
/// path lead to, and shows the last of them.
pub proof fn crumbs_lead_there(dir_idx: nat, parts: Seq<Seq<char>>, n: int)
    requires
        0 < n <= parts.len(),
    ensures
        ({
            let q = text::split(crumb(dir_idx, parts, n), '"');
            let m = q[2].len() - 4;
            &&& q.len() == 3
            &&& q[0] == " / <a href="@
            &&& is_link(q[1], "browse"@, dir_idx, text::join(parts.take(n), '/'))
            &&& m >= 1
            &&& q[2][0] == '>'
            &&& escape::html_read(q[2].subrange(1, m)) == parts[n - 1]
            &&& q[2].skip(m) == "</a>"@
        }),
{
    let idx = text::decimal(dir_idx);
    let whole = text::join(parts.take(n), '/');
    let none = Seq::<char>::empty();
    let link = escape::url_escape(whole);
    let shown = escape::html_escape(parts[n - 1]);
    decimal_is_number(dir_idx);
    shown_has_no_quotes(parts[n - 1]);
    link_has_no_quotes(none, whole);
    link_words_have_no_quotes();
    quotes_before_crumb();
    let t1 = " / <a href=\"/browse/"@;
    let d1 = Seq::<Seq<char>>::empty().push(" / <a href="@);
    text::split_grows(t1, d1, "/browse/"@, idx, '"');
    let t2 = t1 + idx;
    let d2 = d1;
    text::split_grows(t2, d2, "/browse/"@ + idx, "/"@, '"');
    let t3 = t2 + "/"@;
    let d3 = d2;
    text::split_grows(t3, d3, "/browse/"@ + idx + "/"@, link, '"');
    let t4 = t3 + link;
    let d4 = d3;
    quotes_of_tag_end(t4, d4, "/browse/"@ + idx + "/"@ + link);
    let t5 = t4 + "\">"@;
    let d5 = d4.push("/browse/"@ + idx + "/"@ + link);
    text::split_grows(t5, d5, ">"@, shown, '"');
    let t6 = t5 + shown;
    let d6 = d5;
    text::split_grows(t6, d6, ">"@ + shown, "</a>"@, '"');
    let t7 = t6 + "</a>"@;
    let d7 = d6;
    assert(crumb(dir_idx, parts, n) == t7);
    let q = text::split(crumb(dir_idx, parts, n), '"');
    reveal_strlit("/");
    reveal_strlit("browse");
    reveal_strlit("/browse/");
    assert("/browse/"@ =~= "/"@ + "browse"@ + "/"@);
    link_reads("browse"@, dir_idx, none, whole);
    reveal_strlit(">");
    reveal_strlit("</a>");
    assert(q[2] == ">"@ + shown + "</a>"@);
    assert(q[2].subrange(1, q[2].len() - 4) =~= shown);
    assert(q[2].skip(q[2].len() - 4) =~= "</a>"@);
    escape::html_reads_back(parts[n - 1]);
}

/// Whether a link leads to a configured directory itself.
pub open spec fn is_root_link(link: Seq<char>, number: nat) -> bool {
    let parts = text::split(link, '/');
    &&& parts.len() == 3
    &&& parts[0].len() == 0
    &&& parts[1] == "browse"@
    &&& is_number(parts[2], number)
}

/// A link to a configured directory itself is read so.
proof fn root_link_reads(number: nat)
    ensures
        is_root_link("/browse/"@ + text::decimal(number), number),
{
    let idx = text::decimal(number);
    let none = Seq::<char>::empty();
    decimal_is_number(number);
    reveal_strlit("browse");
    reveal_strlit("/browse/");
    let rest = "browse"@.push('/') + idx;
    let link = "/browse/"@ + idx;
    assert(link =~= none.push('/') + rest);
    assert(!"browse"@.contains('/'));
    text::split_at_separator(none, rest, '/');
    text::split_at_separator("browse"@, idx, '/');
    text::split_without_separator(idx, '/');
    assert(text::split(link, '/') =~= seq![none, "browse"@, idx]);
}

/// The breadcrumb starts with a link to the start page and one to the configured
/// directory that shows its name. Behind them comes a link for each component of
/// the path, and none where there is no path.
pub proof fn breadcrumb_leads_down(dir_idx: nat, dir_name: Seq<char>, sub_path: Seq<char>)
    ensures
        ({
            let whole = breadcrumb_text(dir_idx, dir_name, sub_path);
            let parts = text::split(sub_path, '/');
            let trail = if sub_path.len() == 0 {
                Seq::empty()
            } else {
                crumbs(dir_idx, parts, parts.len())
            };
            let n = whole.len() - 6 - trail.len();
            let q = text::split(whole.take(n), '"');
            &&& n >= 0
            &&& whole.skip(n) == trail + "</nav>"@
            &&& q.len() == 7
            &&& q[0] == "<nav class="@ && q[1] == "breadcrumb"@
            &&& q[2] == "><a href="@ && q[3] == "/"@
            &&& q[4] == ">Home</a> / <a href="@ && is_root_link(q[5], dir_idx)
            &&& q[6].len() >= 5
            &&& q[6][0] == '>'
            &&& escape::html_read(q[6].subrange(1, q[6].len() - 4)) == dir_name
            &&& q[6].skip(q[6].len() - 4) == "</a>"@
        }),
{
    let idx = text::decimal(dir_idx);
    let shown = escape::html_escape(dir_name);
    let parts = text::split(sub_path, '/');
    let trail = if sub_path.len() == 0 {
        Seq::empty()
    } else {
        crumbs(dir_idx, parts, parts.len())
    };
    let start = "<nav class=\"breadcrumb\"><a href=\"/\">Home</a> / <a href=\"/browse/"@ + idx + "\">"@
        + shown + "</a>"@;
    decimal_is_number(dir_idx);
    shown_has_no_quotes(dir_name);
    link_words_have_no_quotes();
    quotes_before_home();
    let t1 = "<nav class=\"breadcrumb\"><a href=\"/\">Home</a> / <a href=\"/browse/"@;
    let d1 = Seq::<Seq<char>>::empty().push("<nav class="@).push("breadcrumb"@).push("><a href="@).push("/"@).push(">Home</a> / <a href="@);
    text::split_grows(t1, d1, "/browse/"@, idx, '"');
    let t2 = t1 + idx;
    let d2 = d1;
    quotes_of_tag_end(t2, d2, "/browse/"@ + idx);
    let t3 = t2 + "\">"@;
    let d3 = d2.push("/browse/"@ + idx);
    text::split_grows(t3, d3, ">"@, shown, '"');
    let t4 = t3 + shown;
    let d4 = d3;
    text::split_grows(t4, d4, ">"@ + shown, "</a>"@, '"');
    let t5 = t4 + "</a>"@;
    let d5 = d4;
    assert(start == t5);
    let whole = breadcrumb_text(dir_idx, dir_name, sub_path);
    reveal_strlit("</nav>");
    assert(whole =~= start + (trail + "</nav>"@));
    let n = whole.len() - 6 - trail.len();
    assert(whole.take(n) =~= start);
    assert(whole.skip(n) =~= trail + "</nav>"@);
    root_link_reads(dir_idx);
    let q = text::split(start, '"');
    reveal_strlit(">");
    reveal_strlit("</a>");
    assert(q[6] == ">"@ + shown + "</a>"@);
    assert(q[6].subrange(1, q[6].len() - 4) =~= shown);
    assert(q[6].skip(q[6].len() - 4) =~= "</a>"@);
    escape::html_reads_back(dir_name);
}

/// A link on the start page leads to the directory with its number and shows its
/// name; it is disabled just where the directory does not exist.
pub proof fn start_page_links_lead_there(dir_idx: nat, name: Seq<char>, exists: bool)
    ensures
        ({
            let q = text::split(html::index_entry(dir_idx, name, exists), '"');
            let n = q[6].len() - 4;
            &&& q.len() == 7
            &&& q[0] == "<a class="@
            &&& q[1] == if exists {
                "dir-link"@
            } else {
                "dir-link disabled"@
            }
            &&& q[2] == " href="@ && is_root_link(q[3], dir_idx)
            &&& q[4] == "><span class="@ && q[5] == "folder-icon"@
            &&& n >= 18
            &&& q[6].take(18) == ">&#128193;</span> "@
            &&& escape::html_read(q[6].subrange(18, n)) == name
            &&& q[6].skip(n) == "</a>"@
        }),
{
    let idx = text::decimal(dir_idx);
    let shown = escape::html_escape(name);
    let class = if exists {
        "dir-link"@
    } else {
        "dir-link disabled"@
    };
    decimal_is_number(dir_idx);
    shown_has_no_quotes(name);
    link_words_have_no_quotes();
    quotes_of_entry_start();
    let t1 = "<a class=\""@;
    let d1 = Seq::<Seq<char>>::empty().push("<a class="@);
    text::split_grows(t1, d1, Seq::<char>::empty(), class, '"');
    let t2 = t1 + class;
    let d2 = d1;
    assert(Seq::<char>::empty() + class =~= class);
    quotes_before_entry(t2, d2, class);
    let t3 = t2 + "\" href=\"/browse/"@;
    let d3 = d2.push(class).push(" href="@);
    text::split_grows(t3, d3, "/browse/"@, idx, '"');
    let t4 = t3 + idx;
    let d4 = d3;
    quotes_of_tag_end(t4, d4, "/browse/"@ + idx);
    let t5 = t4 + "\">"@;
    let d5 = d4.push("/browse/"@ + idx);
    quotes_of_icon(t5, d5, ">"@);
    let t6 = t5 + FOLDER_ICON@;
    let d6 = d5.push(">"@ + "<span class="@).push("folder-icon"@);
    text::split_grows(t6, d6, ">&#128193;</span>"@, " "@, '"');
    let t7 = t6 + " "@;
    let d7 = d6;
    text::split_grows(t7, d7, ">&#128193;</span>"@ + " "@, shown, '"');
    let t8 = t7 + shown;
    let d8 = d7;
    text::split_grows(t8, d8, ">&#128193;</span>"@ + " "@ + shown, "</a>"@, '"');
    let t9 = t8 + "</a>"@;
    let d9 = d8;
    assert(html::index_entry(dir_idx, name, exists) == t9);
    let q = text::split(html::index_entry(dir_idx, name, exists), '"');
    root_link_reads(dir_idx);
    reveal_strlit(">");
    reveal_strlit("<span class=");
    reveal_strlit("><span class=");
    assert(">"@ + "<span class="@ =~= "><span class="@);
    icon_and_name_read(q[6], name);
}

/// An error page has the status for its own, says it in words, with the message, and
/// has a link back to the start page.
pub proof fn error_pages_say_what_is_wrong(status: nat, message: Seq<char>)
    ensures
        ({
            let q = text::split(html::error_text(status, message), '<');
            &&& q.len() == 7
            &&& q[0].len() == 0
            &&& q[1].len() > 9 && q[1].take(9) == "h1>Error "@
            &&& is_number(q[1].skip(9), status)
            &&& q[2] == "/h1>"@
            &&& q[3].len() >= 2 && q[3].take(2) == "p>"@
            &&& escape::html_read(q[3].skip(2)) == message
            &&& q[4] == "/p>"@
            &&& q[5] == "a href=\"/\">Back to home"@
            &&& q[6] == "/a>"@
        }),
{
    let digits = text::decimal(status);
    let shown = escape::html_escape(message);
    decimal_is_number(status);
    shown_has_no_quotes(message);
    assert(!digits.contains('<')) by {
        text::decimal_is_digits(status);
    }
    tags_before_status();
    let t1 = "<h1>Error "@;
    let d1 = Seq::<Seq<char>>::empty().push(Seq::<char>::empty());
    text::split_grows(t1, d1, "h1>Error "@, digits, '<');
    let t2 = t1 + digits;
    let d2 = d1;
    tags_before_message(t2, d2, "h1>Error "@ + digits);
    let t3 = t2 + "</h1><p>"@;
    let d3 = d2.push("h1>Error "@ + digits).push("/h1>"@);
    text::split_grows(t3, d3, "p>"@, shown, '<');
    let t4 = t3 + shown;
    let d4 = d3;
    tags_after_message(t4, d4, "p>"@ + shown);
    let t5 = t4 + "</p><a href=\"/\">Back to home</a>"@;
    let d5 = d4.push("p>"@ + shown).push("/p>"@).push("a href=\"/\">Back to home"@);
    assert(html::error_text(status, message) == t5);
    let q = text::split(html::error_text(status, message), '<');
    reveal_strlit("h1>Error ");
    reveal_strlit("p>");
    assert(q[1] == "h1>Error "@ + digits);
    assert(q[1].take(9) =~= "h1>Error "@);
    assert(q[1].skip(9) =~= digits);
    assert(q[3] == "p>"@ + shown);
    assert(q[3].take(2) =~= "p>"@);
    assert(q[3].skip(2) =~= shown);
    escape::html_reads_back(message);
}

/// The breadcrumb has a link for each component of the path, in order.
pub proof fn crumbs_go_one_by_one(dir_idx: nat, parts: Seq<Seq<char>>, k: nat)
    ensures
        crumbs(dir_idx, parts, 0).len() == 0,
        crumbs(dir_idx, parts, k + 1) == crumbs(dir_idx, parts, k) + crumb(
            dir_idx,
            parts,
            k + 1int,
        ),
{
}

/// Cards of images with the same name, or links to subdirectories with the same
/// name, in directories with different numbers lead to different places.
pub proof fn numbers_tell_links_apart(
    a: nat,
    b: nat,
    sub_path: Seq<char>,
    dir: Seq<u8>,
    marks: Set<Seq<char>>,
    name: Seq<char>,
)
    requires
        a != b,
    ensures
        ({
            let p = text::split(image_card(a, sub_path, dir, marks, name), '"');
            let q = text::split(image_card(b, sub_path, dir, marks, name), '"');
            p[5] != q[5] && p[11] != q[11] && p[27] != q[27] && p[33] != q[33]
        }),
        subdir_text(a, sub_path, name) != subdir_text(b, sub_path, name),
{
    cards_lead_to_their_image(a, sub_path, dir, marks, name);
    cards_lead_to_their_image(b, sub_path, dir, marks, name);
    subdir_links_lead_there(a, sub_path, name);
    subdir_links_lead_there(b, sub_path, name);
}

/// What a card or a link of a directory asks for, taken from the configured
/// directory with its number, is what is called so in the directory shown.
pub proof fn links_ask_for_the_directory_shown(
    base: Seq<Seq<u8>>,
    sub_path: Seq<char>,
    name: Seq<char>,
)
    requires
        path::all_names(directory_parts(base, sub_path)),
        path::is_name(encode_utf8(name)),
    ensures
        path::joined(
            path::rendered(base),
            encode_utf8(
                if sub_path.len() == 0 {
                    name
                } else {
                    sub_path + "/"@ + name
                },
            ),
        ) == path::rendered(directory_parts(base, sub_path).push(encode_utf8(name))),
{
    link_has_no_quotes(sub_path, name);
    links_ask_for_what_is_listed(base, sub_path, name);
}

/// What a card's links and button ask for is looked up at the path of the image that
/// the card was shown for, in the directory that the page shows.
pub proof fn cards_are_looked_up_where_shown(
    lookup: serve::ImageLookup,
    sub_path: Seq<char>,
    name: Seq<char>,
    first: serve::LookupStep,
)
    requires
        path::all_names(directory_parts(lookup.base@, sub_path)),
        path::is_name(encode_utf8(name)),
        lookup.sub_path@ == if sub_path.len() == 0 {
            name
        } else {
            sub_path + "/"@ + name
        },
        first@ == lookup.first_step(),
    ensures
        first matches serve::LookupStep::Canonicalize(p) && p@ == path::rendered(
            directory_parts(lookup.base@, sub_path).push(encode_utf8(name)),
        ),
{
    links_ask_for_the_directory_shown(lookup.base@, sub_path, name);
    serve::lookup_begins_at_the_path(lookup, first);
}

/// There is a card for each image, and a link for each subdirectory, in the order of
/// the names.
pub proof fn every_name_is_shown(
    dir_idx: nat,
    sub_path: Seq<char>,
    dir: Seq<u8>,
    marks: Set<Seq<char>>,
    names: Seq<Seq<char>>,
    name: Seq<char>,
)
    ensures
        cards_text(dir_idx, sub_path, dir, marks, Seq::empty()).len() == 0,
        cards_text(dir_idx, sub_path, dir, marks, names.push(name)) == cards_text(
            dir_idx,
            sub_path,
            dir,
            marks,
            names,
        ) + image_card(dir_idx, sub_path, dir, marks, name),
        subdirs_text(dir_idx, sub_path, Seq::empty()).len() == 0,
        subdirs_text(dir_idx, sub_path, names.push(name)) == subdirs_text(dir_idx, sub_path, names)
            + subdir_text(dir_idx, sub_path, name),
{
    assert(names.push(name).drop_last() =~= names);
}

/// A count is the number in decimal and the noun, in the plural but for one.
pub proof fn counts_have_their_plural(n: nat, noun: Seq<char>)
    ensures
        ({
            let t = counted(n, noun);
            let ending = if n == 1 {
                0int
            } else {
                1int
            };
            let k = t.len() - noun.len() - ending;
            &&& k > 0
            &&& is_number(t.take(k), n)
            &&& t.subrange(k, k + noun.len()) == noun
            &&& n != 1 ==> t.last() == 's'
        }),
{
    decimal_is_number(n);
    reveal_strlit("");
    reveal_strlit("s");
    let d = text::decimal(n);
    let t = counted(n, noun);
    assert(t.take(d.len() as int) =~= d);
    assert(t.subrange(d.len() as int, (d.len() + noun.len()) as int) =~= noun);
}

/// The page counts the subdirectories and the images shown.
pub proof fn pages_count_what_they_show(subdirs: nat, images: nat)
    ensures
        count_text(subdirs, images) == counted(subdirs, " folder"@) + ", "@ + counted(
            images,
            " image"@,
        ),
{
}

/// The page that shows a directory has, in this order, the breadcrumb, the counts,
/// the links to its subdirectories if it has any, its images or that there are none,
/// and the script for the marks.
pub proof fn pages_show_the_directory(
    b: Browse,
    full: Seq<Seq<u8>>,
    marks: Set<Seq<char>>,
    subdirs: Seq<Seq<char>>,
    images: Seq<Seq<char>>,
)
    ensures
        ({
            let n = b.dir_idx as nat;
            let dir = seq!['/' as u8] + text::join(full, '/' as u8);
            let links = if subdirs.len() == 0 {
                Seq::empty()
            } else {
                "<div class=\"dir-list\">"@ + subdirs_text(n, b.sub_path@, subdirs) + "</div>"@
            };
            let cards = if images.len() == 0 {
                "<p class=\"empty\">No images in this directory.</p>"@
            } else {
                "<div class=\"grid\">"@ + cards_text(n, b.sub_path@, dir, marks, images)
                    + "</div>"@
            };
            let body = breadcrumb_text(n, b.dir_name@, b.sub_path@)
                + "\n<p class=\"count-info\">"@ + count_text(subdirs.len(), images.len())
                + "</p>\n"@ + links + "\n"@ + cards + "\n<script>"@ + JS@ + "</script>"@;
            b.page_text(full, marks, subdirs, images) == html::page_text("tis - browse"@, body)
        }),
{
    let n = b.dir_idx as nat;
    let dir = path::rendered(full);
    if subdirs.len() > 0 {
        let last = subdirs.last();
        assert(subdirs =~= subdirs.drop_last().push(last));
        every_name_is_shown(n, b.sub_path@, dir, marks, subdirs.drop_last(), last);
        subdir_links_lead_there(n, b.sub_path@, last);
        is_not_empty(subdir_text(n, b.sub_path@, last));
    }
    if images.len() > 0 {
        let last = images.last();
        assert(images =~= images.drop_last().push(last));
        every_name_is_shown(n, b.sub_path@, dir, marks, images.drop_last(), last);
        cards_lead_to_their_image(n, b.sub_path@, dir, marks, last);
        is_not_empty(image_card(n, b.sub_path@, dir, marks, last));
    }
}

/// A text with something between its quotes is not empty.
proof fn is_not_empty(t: Seq<char>)
    ensures
        text::split(t, '"').len() > 1 ==> t.len() > 0,
{
}

/// A page has its title in its head, and ends with its contents.
pub proof fn pages_frame_their_contents(title: Seq<char>, body: Seq<char>)
    ensures
        ({
            let t = html::page_text(title, body);
            let start = html::PAGE_START@ + title + "</title>\n<style>"@ + html::CSS@
                + "</style>\n</head>\n<body>\n"@;
            let end = "\n</body>\n</html>"@;
            &&& t.len() == start.len() + body.len() + end.len()
            &&& t.take(start.len() as int) == start
            &&& t.subrange(start.len() as int, (start.len() + body.len()) as int) == body
            &&& t.skip((start.len() + body.len()) as int) == end
        }),
{
    let t = html::page_text(title, body);
    let start = html::PAGE_START@ + title + "</title>\n<style>"@ + html::CSS@
        + "</style>\n</head>\n<body>\n"@;
    let end = "\n</body>\n</html>"@;
    assert(t.take(start.len() as int) =~= start);
    assert(t.subrange(start.len() as int, (start.len() + body.len()) as int) =~= body);
    assert(t.skip((start.len() + body.len()) as int) =~= end);
}

/// The start page has a link to every configured directory, in the order of the
/// configuration.
pub proof fn start_page_lists_every_directory(app: AppState, n: nat)
    requires
        app.well_formed(),
        n < app.config.directories@.len(),
    ensures
        html::index_entries(app, 0).len() == 0,
        html::index_entries(app, n + 1) == html::index_entries(app, n) + html::index_entry(
            n,
            app.config.directories@[n as int].name@,
            app.canonical_dirs@[n as int] is Some,
        ),
        html::index_text(app) == html::page_text(
            "tis - directories"@,
            "<h1>Directories</h1><div class=\"dir-list\">"@ + html::index_entries(
                app,
                app.config.directories@.len(),
            ) + "</div>"@,
        ),
{
}

/// An error is answered with its status and a page that says what is wrong.
pub proof fn errors_are_answered_with_their_page(status: u16, message: Seq<char>, r: Reply)
    requires
        r@ == html::error_reply(status, message),
    ensures
        r.status == status,
        r.headers@.len() == 0,
        r.body matches reply::ReplyBody::Html(page) && page@ == html::page_text(
            "tis - error"@,
            html::error_text(status as nat, message),
        ),
{
    reply::answers_hold_what_they_say(r);
}

/// A name is hidden just where it starts with a dot.
pub proof fn hidden_names_start_with_a_dot(name: Seq<char>)
    ensures
        is_hidden(seq!['.'] + name),
        name.len() > 0 && name[0] != '.' ==> !is_hidden(name),
        !is_hidden(Seq::empty()),
{
}

/// Which entries are listed: directories as subdirectories and files with image
/// names as images, unless they are hidden; and nothing else, such as a link or an
/// entry of which it is not known what it is.
pub proof fn what_is_listed(e: DirEntry)
    ensures
        ({
            let name = path::lossy_utf8(e.name@);
            let shown = name.len() == 0 || name[0] != '.';
            &&& lists_subdir(e) <==> shown && (e.kind matches Some(k) && k is Directory)
            &&& lists_image(e) <==> shown && (e.kind matches Some(k) && k is File)
                && media::is_image_name(name)
        }),
{
}

/// An entry more adds its name to what is shown, once, where it is listed, and
/// otherwise changes nothing.
pub proof fn entries_are_listed_one_by_one(entries: Seq<DirEntry>, e: DirEntry)
    ensures
        ({
            let name = path::lossy_utf8(e.name@);
            &&& subdir_names(entries.push(e)) == if lists_subdir(e) {
                subdir_names(entries).push(name)
            } else {
                subdir_names(entries)
            }
            &&& image_names(entries.push(e)) == if lists_image(e) {
                image_names(entries).push(name)
            } else {
                image_names(entries)
            }
        }),
        subdir_names(Seq::empty()).len() == 0,
        image_names(Seq::empty()).len() == 0,
{
    assert(entries.push(e).drop_last() =~= entries);
}

/// What is shown is as many names as there are listed entries, each as often as it is
/// listed, in order without regard to letter case.
pub proof fn listings_are_in_order(
    entries: Seq<DirEntry>,
    subdirs: Seq<Seq<char>>,
    images: Seq<Seq<char>>,
    i: int,
    j: int,
)
    requires
        is_listing(entries, subdirs, images),
    ensures
        subdirs.to_multiset() == subdir_names(entries).to_multiset(),
        images.to_multiset() == image_names(entries).to_multiset(),
        subdirs.len() == subdir_names(entries).len(),
        images.len() == image_names(entries).len(),
        0 <= i < j < subdirs.len() ==> order::comes_first(
            order::sort_key(subdirs[i], true),
            order::sort_key(subdirs[j], true),
        ),
        0 <= i < j < images.len() ==> order::comes_first(
            order::sort_key(images[i], true),
            order::sort_key(images[j], true),
        ),
{
    subdirs.to_multiset_ensures();
    subdir_names(entries).to_multiset_ensures();
    images.to_multiset_ensures();
    image_names(entries).to_multiset_ensures();
    if 0 <= i < j < subdirs.len() {
        order::sorted_names_are_in_order(subdirs, true, i, j);
    }
    if 0 <= i < j < images.len() {
        order::sorted_names_are_in_order(images, true, i, j);
    }
}

/// How a request begins. Without a path below the configured directory, that
/// directory itself is looked at; and with one, the path taken from there is resolved.
pub proof fn requests_begin_at_their_path(b: Browse, first: BrowseStep)
    requires
        first@ == b.first_step(),
    ensures
        b.sub_path@.len() == 0 ==> (first matches BrowseStep::CheckDirectory(p) && p@ == b.base@),
        b.sub_path@.len() > 0 ==> (first matches BrowseStep::Canonicalize(p) && p@ == path::joined(
            path::rendered(b.base@),
            encode_utf8(b.sub_path@),
        )),
{
}

/// What each outcome leads to: the path that was resolved is looked at if it is the
/// configured directory or below it, and a directory that is there is read; every
/// other outcome is answered with its error.
pub proof fn outcomes_lead_on(
    b: Browse,
    marks: Set<Seq<char>>,
    step: BrowseStepView,
    event: BrowseEvent,
    next: BrowseStep,
)
    requires
        answers(step, event),
        b.follows(marks, step, event, next@),
    ensures
        match (step, event) {
            (BrowseStepView::Canonicalize(_), BrowseEvent::Canonical(None)) => {
                next matches BrowseStep::Respond(r) && r@ == html::error_reply(
                    404,
                    "Path not found"@,
                )
            },
            (BrowseStepView::Canonicalize(_), BrowseEvent::Canonical(Some(full))) => {
                let inside = full@.len() >= b.base@.len() && forall|i: int|
                    0 <= i < b.base@.len() ==> #[trigger] full@[i] == b.base@[i];
                &&& inside ==> (next matches BrowseStep::CheckDirectory(p) && p@ == full@)
                &&& !inside ==> (next matches BrowseStep::Respond(r) && r@ == html::error_reply(
                    403,
                    "Access denied"@,
                ))
            },
            (BrowseStepView::CheckDirectory(full), BrowseEvent::Directory(true)) => {
                next matches BrowseStep::ReadDirectory(p) && p@ == full
            },
            (BrowseStepView::CheckDirectory(_), BrowseEvent::Directory(false)) => {
                next matches BrowseStep::Respond(r) && r@ == html::error_reply(
                    404,
                    "Not a directory"@,
                )
            },
            (BrowseStepView::ReadDirectory(_), BrowseEvent::Entries(None)) => {
                next matches BrowseStep::Respond(r) && r@ == html::error_reply(
                    500,
                    "Cannot read directory"@,
                )
            },
            (BrowseStepView::ReadDirectory(full), BrowseEvent::Entries(Some(entries))) => {
                &&& next matches BrowseStep::Respond(r)
                &&& r.status == 200 && r.headers@.len() == 0
                &&& r.body matches reply::ReplyBody::Html(page) && exists|
                    subdirs: Seq<Seq<char>>,
                    images: Seq<Seq<char>>,
                |
                    #[trigger] is_listing(entries@, subdirs, images) && page@ == b.page_text(
                        full,
                        marks,
                        subdirs,
                        images,
                    )
            },
            _ => true,
        },
{
    if let BrowseEvent::Canonical(Some(full)) = event {
        path::inside_is_a_longer_way(full@, b.base@);
    }
    if let BrowseStep::Respond(r) = next {
        reply::answers_hold_what_they_say(r);
    }
}

/// A request for a directory that is configured and was resolved is for that very
/// directory, under its number and name; any other number is answered so.
pub proof fn requests_are_for_their_directory(
    app: AppState,
    dir_idx: usize,
    sub_path: Seq<char>,
    r: Result<Browse, Reply>,
)
    requires
        app.well_formed(),
        begins(app, dir_idx, sub_path, r),
    ensures
        ({
            let n = dir_idx as int;
            if n >= app.config.directories@.len() {
                r matches Err(reply) && reply@ == html::error_reply(404, "Directory not found"@)
            } else {
                match app.canonical_dirs@[n] {
                    None => r matches Err(reply) && reply@ == html::error_reply(
                        404,
                        "Directory not accessible"@,
                    ),
                    Some(base) => r matches Ok(b) && b.base@ == base@ && b.dir_idx == n
                        && b.dir_name@ == app.config.directories@[n].name@ && b.sub_path@
                        == sub_path,
                }
            }
        }),
{
}

/// Each step but the last takes the outcomes of its own kind, whatever they are, and
/// no others.
pub proof fn steps_take_their_outcomes(step: BrowseStep, event: BrowseEvent)
    ensures
        answers(step@, event) <==> {
            ||| step is Canonicalize && event is Canonical
            ||| step is CheckDirectory && event is Directory
            ||| step is ReadDirectory && event is Entries
        },
{
}

} // verus!
