//! Replies to requests: a status, headers and a body.
use vstd::prelude::*;

verus! {

pub const OK: u16 = 200;

pub const CREATED: u16 = 201;

pub const ACCEPTED: u16 = 202;

pub const BAD_REQUEST: u16 = 400;

pub const NOT_FOUND: u16 = 404;

pub const RANGE_NOT_SATISFIABLE: u16 = 416;

pub const INTERNAL_SERVER_ERROR: u16 = 500;

/// The header with the version of the registry protocol, and that version.
pub const API_VERSION: &'static str = "Docker-Distribution-Api-Version";

pub const REGISTRY_VERSION: &'static str = "registry/2.0";

/// What a reply carries.
pub enum Body<T> {
    Empty,
    Text(T),
    /// The contents of the file that was opened for the request.
    OpenedFile,
}

/// A reply.
pub struct Reply {
    pub status: u16,
    pub headers: Vec<(String, String)>,
    pub body: Body<String>,
}

/// What a reply says.
#[verifier::ext_equal]
pub struct ReplyView {
    pub status: u16,
    pub headers: Seq<(Seq<char>, Seq<char>)>,
    pub body: Body<Seq<char>>,
}

impl View for Body<String> {
    type V = Body<Seq<char>>;

    open spec fn view(&self) -> Body<Seq<char>> {
        match self {
            Body::Empty => Body::Empty,
            Body::Text(text) => Body::Text(text@),
            Body::OpenedFile => Body::OpenedFile,
        }
    }
}

impl View for Reply {
    type V = ReplyView;

    open spec fn view(&self) -> ReplyView {
        ReplyView {
            status: self.status,
            headers: self.headers@.map_values(|header: (String, String)| (header.0@, header.1@)),
            body: self.body@,
        }
    }
}

impl ReplyView {
    /// A reply with neither headers nor body.
    pub open spec fn with_status(status: u16) -> ReplyView {
        ReplyView { status, headers: Seq::empty(), body: Body::Empty }
    }

    /// The reply with one more header.
    pub open spec fn header(self, name: Seq<char>, value: Seq<char>) -> ReplyView {
        ReplyView { headers: self.headers.push((name, value)), ..self }
    }

    /// The reply with the version of the protocol.
    pub open spec fn versioned(self) -> ReplyView {
        self.header(API_VERSION@, REGISTRY_VERSION@)
    }

    /// The reply with a text for its body.
    pub open spec fn text(self, text: Seq<char>) -> ReplyView {
        ReplyView { body: Body::Text(text), ..self }
    }

    /// The reply with the opened file for its body.
    pub open spec fn opened_file(self) -> ReplyView {
        ReplyView { body: Body::OpenedFile, ..self }
    }
}

impl Reply {
    /// A reply with neither headers nor body.
    pub fn with_status(status: u16) -> (reply: Reply)
        ensures
            reply@ == ReplyView::with_status(status),
    {
        let reply = Reply { status, headers: Vec::new(), body: Body::Empty };
        assert(reply@.headers =~= Seq::empty());
        reply
    }

    /// The reply with one more header.
    pub fn header(self, name: &str, value: &str) -> (reply: Reply)
        ensures
            reply@ == self@.header(name@, value@),
    {
        let mut headers = self.headers;
        headers.push((name.to_owned(), value.to_owned()));
        let reply = Reply { status: self.status, headers, body: self.body };
        assert(reply@.headers =~= self@.header(name@, value@).headers);
        reply
    }

    /// The reply with the version of the protocol.
    pub fn versioned(self) -> (reply: Reply)
        ensures
            reply@ == self@.versioned(),
    {
        self.header(API_VERSION, REGISTRY_VERSION)
    }

    /// The reply with a text for its body.
    pub fn text(self, text: &str) -> (reply: Reply)
        ensures
            reply@ == self@.text(text@),
    {
        Reply { status: self.status, headers: self.headers, body: Body::Text(text.to_owned()) }
    }

    /// The reply with the opened file for its body.
    pub fn opened_file(self) -> (reply: Reply)
        ensures
            reply@ == self@.opened_file(),
    {
        Reply { status: self.status, headers: self.headers, body: Body::OpenedFile }
    }
}

/// The reply to a request for nothing but the version of the protocol.
pub open spec fn version_view() -> ReplyView {
    ReplyView::with_status(OK).header("Content-Type"@, "application/json; charset=utf-8"@)
        .versioned().header("X-Content-Type-Options"@, "nosniff"@)
}

/// Answers a request for nothing but the version of the protocol.
pub fn version_reply() -> (reply: Reply)
    ensures
        reply@ == version_view(),
{
    Reply::with_status(OK).header("Content-Type", "application/json; charset=utf-8").versioned()
        .header("X-Content-Type-Options", "nosniff")
}

/// A reply says what it holds: its status, its headers in their order, and its body.
pub proof fn reply_says_what_it_holds(reply: Reply, i: int)
    ensures
        reply@.status == reply.status,
        reply@.headers.len() == reply.headers@.len(),
        0 <= i < reply.headers@.len() ==> reply@.headers[i] == (
            reply.headers@[i].0@,
            reply.headers@[i].1@,
        ),
        match reply.body {
            Body::Empty => reply@.body == Body::<Seq<char>>::Empty,
            Body::Text(text) => reply@.body == Body::Text(text@),
            Body::OpenedFile => reply@.body == Body::<Seq<char>>::OpenedFile,
        },
{
}

} // verus!
