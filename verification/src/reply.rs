//! Answers to the requests of a phone.

use vstd::prelude::*;

verus! {

/// The status of an answer to a request that was served.
pub const OK: u16 = 200;

/// The status of an answer without a body.
pub const NO_CONTENT: u16 = 204;

/// The status of an answer to a request that makes no sense.
pub const BAD_REQUEST: u16 = 400;

/// The status of an answer to a request for what is not there.
pub const NOT_FOUND: u16 = 404;

/// The status of an answer to a request that failed on this side.
pub const INTERNAL_SERVER_ERROR: u16 = 500;

/// What a member of an answer holds.
#[derive(Debug)]
pub enum Content {
    Flag(bool),
    Text(String),
}

/// A member of an answer.
#[derive(Debug)]
pub struct Member {
    pub key: String,
    pub value: Content,
}

/// An answer: a status and the members of the object in its body.
#[derive(Debug)]
pub struct Reply {
    pub status: u16,
    pub body: Vec<Member>,
}

/// The content of a `Content`.
pub enum ContentView {
    Flag(bool),
    Text(Seq<char>),
}

/// The content of a `Reply`.
pub struct ReplyView {
    pub status: u16,
    pub body: Seq<(Seq<char>, ContentView)>,
}

impl View for Content {
    type V = ContentView;

    open spec fn view(&self) -> ContentView {
        match self {
            Content::Flag(b) => ContentView::Flag(*b),
            Content::Text(t) => ContentView::Text(t@),
        }
    }
}

impl View for Member {
    type V = (Seq<char>, ContentView);

    open spec fn view(&self) -> (Seq<char>, ContentView) {
        (self.key@, self.value@)
    }
}

impl View for Reply {
    type V = ReplyView;

    open spec fn view(&self) -> ReplyView {
        ReplyView { status: self.status, body: crate::records::views(self.body@) }
    }
}

fn flag(key: &str, value: bool) -> (r: Member)
    ensures
        r@ == (key@, ContentView::Flag(value)),
{
    Member { key: key.to_string(), value: Content::Flag(value) }
}

fn text(key: &str, value: String) -> (r: Member)
    ensures
        r@ == (key@, ContentView::Text(value@)),
{
    Member { key: key.to_string(), value: Content::Text(value) }
}

/// The answer to a request that was refused or failed.
pub open spec fn error_reply(status: u16, message: Seq<char>) -> ReplyView {
    ReplyView {
        status,
        body: seq![("ok"@, ContentView::Flag(false)), ("error"@, ContentView::Text(message))],
    }
}

/// The answer to a request that was served and has nothing more to say.
pub open spec fn ok_reply() -> ReplyView {
    ReplyView { status: OK, body: seq![("ok"@, ContentView::Flag(true))] }
}

/// The answer to a chunk after which others are still missing.
pub open spec fn chunk_reply() -> ReplyView {
    ReplyView {
        status: OK,
        body: seq![("ok"@, ContentView::Flag(true)), ("saved"@, ContentView::Flag(false))],
    }
}

/// The answer to the chunk that completed a file.
pub open spec fn saved_reply(name: Seq<char>, path: Seq<char>) -> ReplyView {
    ReplyView {
        status: OK,
        body: seq![
            ("ok"@, ContentView::Flag(true)),
            ("saved"@, ContentView::Flag(true)),
            ("name"@, ContentView::Text(name)),
            ("path"@, ContentView::Text(path)),
        ],
    }
}

/// The answer to a request that was refused or failed.
pub fn err_response(status: u16, message: String) -> (r: Reply)
    ensures
        r@ == error_reply(status, message@),
{
    let r = Reply { status, body: vec![flag("ok", false), text("error", message)] };
    assert(r@.body =~= error_reply(status, message@).body);
    r
}

/// The answer to a request that was served and has nothing more to say.
pub fn ok_response() -> (r: Reply)
    ensures
        r@ == ok_reply(),
{
    let r = Reply { status: OK, body: vec![flag("ok", true)] };
    assert(r@.body =~= ok_reply().body);
    r
}

/// The answer to a chunk after which others are still missing.
pub fn chunk_response() -> (r: Reply)
    ensures
        r@ == chunk_reply(),
{
    let r = Reply { status: OK, body: vec![flag("ok", true), flag("saved", false)] };
    assert(r@.body =~= chunk_reply().body);
    r
}

/// The answer to the chunk that completed a file.
pub fn saved_response(name: String, path: String) -> (r: Reply)
    ensures
        r@ == saved_reply(name@, path@),
{
    let r = Reply {
        status: OK,
        body: vec![flag("ok", true), flag("saved", true), text("name", name), text("path", path)],
    };
    assert(r@.body =~= saved_reply(name@, path@).body);
    r
}

/// The answer to the question whether the service is there.
pub fn health() -> (r: Reply)
    ensures
        r@ == (ReplyView { status: OK, body: seq![("status"@, ContentView::Text("ok"@))] }),
{
    let r = Reply { status: OK, body: vec![text("status", "ok".to_string())] };
    assert(r@.body =~= seq![("status"@, ContentView::Text("ok"@))]);
    r
}

/// A refusal carries the status and the message that it was made with, and says that
/// the request failed.
pub proof fn law_refusal_tells_why(status: u16, message: Seq<char>)
    ensures
        error_reply(status, message).status == status,
        error_reply(status, message).body.len() == 2,
        error_reply(status, message).body[0] == ("ok"@, ContentView::Flag(false)),
        error_reply(status, message).body[1] == ("error"@, ContentView::Text(message)),
{
}

/// The answer to a chunk that completed a file carries the name and the path of the
/// file; one to any other chunk says that nothing was saved.
pub proof fn law_saved_answer_names_the_file(name: Seq<char>, path: Seq<char>)
    ensures
        saved_reply(name, path).status == 200,
        saved_reply(name, path).body.len() == 4,
        saved_reply(name, path).body[0] == ("ok"@, ContentView::Flag(true)),
        saved_reply(name, path).body[1] == ("saved"@, ContentView::Flag(true)),
        saved_reply(name, path).body[2] == ("name"@, ContentView::Text(name)),
        saved_reply(name, path).body[3] == ("path"@, ContentView::Text(path)),
        chunk_reply().status == 200,
        chunk_reply().body.len() == 2,
        chunk_reply().body[0] == ("ok"@, ContentView::Flag(true)),
        chunk_reply().body[1] == ("saved"@, ContentView::Flag(false)),
        ok_reply().status == 200,
        ok_reply().body.len() == 1,
        ok_reply().body[0] == ("ok"@, ContentView::Flag(true)),
{
}

/// The content of an answer is its status and its members, in order.
pub proof fn law_replies_show_their_members(reply: Reply, i: int)
    requires
        0 <= i < reply.body@.len(),
    ensures
        reply@.status == reply.status,
        reply@.body.len() == reply.body@.len(),
        reply@.body[i].0 == reply.body@[i].key@,
        reply.body@[i].value matches Content::Flag(b) ==> reply@.body[i].1 == ContentView::Flag(b),
        reply.body@[i].value matches Content::Text(t) ==> reply@.body[i].1 == ContentView::Text(t@),
{
}

} // verus!
