//! What the server answers.

use vstd::prelude::*;

verus! {

/// The body of an answer.
pub enum ReplyBody {
    /// No body.
    Empty,
    /// A page.
    Html(String),
    /// Other text.
    Text(String),
    /// Bytes.
    Bytes(Vec<u8>),
    /// The contents of the file that was opened for the request.
    File,
}

/// An answer: its status, the headers that do not follow from the body, and
/// its body.
pub struct Reply {
    pub status: u16,
    pub headers: Vec<(&'static str, String)>,
    pub body: ReplyBody,
}

/// The body of an answer, in specifications.
#[verifier::ext_equal]
pub enum BodyView {
    Empty,
    Html(Seq<char>),
    Text(Seq<char>),
    Bytes(Seq<u8>),
    File,
}

/// An answer, in specifications.
#[verifier::ext_equal]
pub struct ReplyView {
    pub status: u16,
    pub headers: Seq<(Seq<char>, Seq<char>)>,
    pub body: BodyView,
}

impl View for ReplyBody {
    type V = BodyView;

    open spec fn view(&self) -> BodyView {
        match self {
            ReplyBody::Empty => BodyView::Empty,
            ReplyBody::Html(page) => BodyView::Html(page@),
            ReplyBody::Text(s) => BodyView::Text(s@),
            ReplyBody::Bytes(b) => BodyView::Bytes(b@),
            ReplyBody::File => BodyView::File,
        }
    }
}

impl View for Reply {
    type V = ReplyView;

    open spec fn view(&self) -> ReplyView {
        ReplyView {
            status: self.status,
            headers: Seq::new(
                self.headers@.len(),
                |i: int| (self.headers@[i].0@, self.headers@[i].1@),
            ),
            body: self.body@,
        }
    }
}

/// An answer with a status alone.
pub open spec fn status_reply(status: u16) -> ReplyView {
    ReplyView { status, headers: Seq::empty(), body: BodyView::Empty }
}

/// An answer with a page.
pub open spec fn html_reply(status: u16, page: Seq<char>) -> ReplyView {
    ReplyView { status, headers: Seq::empty(), body: BodyView::Html(page) }
}

impl Reply {
    /// An answer with a status alone.
    pub fn empty(status: u16) -> (r: Reply)
        ensures
            r@ == status_reply(status),
    {
        let r = Reply { status, headers: Vec::new(), body: ReplyBody::Empty };
        assert(r@ =~= status_reply(status));
        r
    }

    /// An answer with a page.
    pub fn html(status: u16, page: String) -> (r: Reply)
        ensures
            r@ == html_reply(status, page@),
    {
        let r = Reply { status, headers: Vec::new(), body: ReplyBody::Html(page) };
        assert(r@ =~= html_reply(status, page@));
        r
    }
}

// --- Laws ---

/// What an answer says in specifications is what is in it: its status, its headers
/// one for one, and its body.
pub proof fn answers_hold_what_they_say(r: Reply)
    ensures
        r@.status == r.status,
        r@.headers.len() == r.headers@.len(),
        forall|i: int|
            #![trigger r@.headers[i]]
            #![trigger r.headers@[i]]
            0 <= i < r.headers@.len() ==> r@.headers[i].0 == r.headers@[i].0@ && r@.headers[i].1
                == r.headers@[i].1@,
        r.body is Empty <==> r@.body is Empty,
        r.body is File <==> r@.body is File,
        r.body matches ReplyBody::Html(t) ==> r@.body == BodyView::Html(t@),
        r.body matches ReplyBody::Text(t) ==> r@.body == BodyView::Text(t@),
        r.body matches ReplyBody::Bytes(b) ==> r@.body == BodyView::Bytes(b@),
{
}

/// An answer with a status alone has no header and no body, and one with a page has
/// the page for its body.
pub proof fn plain_answers(status: u16, page: Seq<char>, empty: Reply, html: Reply)
    requires
        empty@ == status_reply(status),
        html@ == html_reply(status, page),
    ensures
        empty.status == status && empty.headers@.len() == 0 && empty.body is Empty,
        html.status == status && html.headers@.len() == 0,
        html.body matches ReplyBody::Html(t) && t@ == page,
{
    answers_hold_what_they_say(empty);
    answers_hold_what_they_say(html);
}

} // verus!
