//! A request on its way: it asks for one action after another, and each outcome takes it a step
//! further, until it has its reply.
use crate::digest::hash_of;
use crate::json::is_kept;
use crate::pull::{get_started, head_started, Pull};
use crate::push::{pushed_index, stored_index, Push};
use crate::reply::{Reply, ReplyView, NOT_FOUND};
use crate::storage::{Action, Event, Location};
use crate::upload::{patch_started, post_started, put_started, Upload};
use vstd::prelude::*;

verus! {

/// A request on its way.
pub enum Session {
    /// An image or a blob is asked for.
    Pull(Pull<String>),
    /// A manifest is sent.
    Push(Push<String, Vec<u8>>),
    /// A blob is sent, at once or in chunks.
    Upload(Upload<String, Vec<u8>>),
    /// The reply is there.
    Done(Reply),
}

/// How far a request has come.
#[verifier::ext_equal]
pub enum SessionView {
    Pull(Pull<Seq<char>>),
    Push(Push<Seq<char>, Seq<u8>>),
    Upload(Upload<Seq<char>, Seq<u8>>),
    Done(ReplyView),
}

impl View for Session {
    type V = SessionView;

    open spec fn view(&self) -> SessionView {
        match self {
            Session::Pull(pull) => SessionView::Pull(pull@),
            Session::Push(push) => SessionView::Push(push@),
            Session::Upload(upload) => SessionView::Upload(upload@),
            Session::Done(reply) => SessionView::Done(reply@),
        }
    }
}

pub open spec fn session_view(session: Option<Session>) -> Option<SessionView> {
    match session {
        Some(session) => Some(session@),
        None => None,
    }
}

impl SessionView {
    /// A reply of a status and a text.
    pub open spec fn refused(status: u16, text: Seq<char>) -> SessionView {
        SessionView::Done(ReplyView::with_status(status).text(text))
    }

    /// A reply of a status alone.
    pub open spec fn ended(status: u16) -> SessionView {
        SessionView::Done(ReplyView::with_status(status))
    }

    /// The reply that there is no such thing.
    pub open spec fn not_found() -> SessionView {
        SessionView::refused(NOT_FOUND, "Not Found"@)
    }

    /// What the request needs done next, unless it has its reply.
    pub open spec fn action(self) -> Option<Action<Seq<char>, Seq<u8>>> {
        match self {
            SessionView::Pull(pull) => Some(pull.action()),
            SessionView::Push(push) => Some(push.action()),
            SessionView::Upload(upload) => Some(upload.action()),
            SessionView::Done(_) => None,
        }
    }

    /// The request waits for such an outcome.
    pub open spec fn awaits(self, event: Event<Seq<char>, Seq<u8>>) -> bool {
        self.action() matches Some(action) && event.answers(action)
    }

    /// How far the request has come once the outcome of its action is known. Nothing where it is
    /// dropped without a reply.
    pub open spec fn after(self, event: Event<Seq<char>, Seq<u8>>) -> Option<SessionView> {
        match self {
            SessionView::Pull(pull) => pull.after(event),
            SessionView::Push(push) => push.after(event),
            SessionView::Upload(upload) => upload.after(event),
            SessionView::Done(_) => Some(self),
        }
    }
}

impl Session {
    /// A reply of a status and a text.
    pub fn refuse(status: u16, text: &str) -> (session: Session)
        ensures
            session@ == SessionView::refused(status, text@),
    {
        Session::Done(Reply::with_status(status).text(text))
    }

    /// A reply of a status alone.
    pub fn end(status: u16) -> (session: Session)
        ensures
            session@ == SessionView::ended(status),
    {
        Session::Done(Reply::with_status(status))
    }

    /// The reply that there is no such thing.
    pub fn not_found() -> (session: Session)
        ensures
            session@ == SessionView::not_found(),
    {
        Session::refuse(NOT_FOUND, "Not Found")
    }

    /// What the request needs done next, unless it has its reply.
    pub fn action(&self) -> (action: Option<Action<String, &[u8]>>)
        ensures
            match action {
                Some(action) => self@.action() == Some(action@),
                None => self@.action() is None,
            },
    {
        match self {
            Session::Pull(pull) => Some(pull.action()),
            Session::Push(push) => Some(push.action()),
            Session::Upload(upload) => Some(upload.action()),
            Session::Done(_) => None,
        }
    }

    /// Takes the request a step further, now that the outcome of its action is known. Nothing
    /// where it is dropped without a reply.
    pub fn step(self, event: Event<String, Vec<u8>>) -> (next: Option<Session>)
        requires
            self@.awaits(event@),
        ensures
            session_view(next) == self@.after(event@),
            self@ matches SessionView::Push(Push::Index { name, reference, manifest, hash }) ==> (
            event@ matches Event::Text(text) ==> (next is Some ==> is_kept(
                pushed_index(stored_index(text), name, reference, manifest, hash),
            ))),
    {
        match self {
            Session::Pull(pull) => pull.step(event),
            Session::Push(push) => push.step(event),
            Session::Upload(upload) => upload.step(event),
            Session::Done(reply) => Some(Session::Done(reply)),
        }
    }
}

/// How many outcomes a request can still wait for.
pub open spec fn outcomes_left(session: SessionView) -> nat {
    match session {
        SessionView::Pull(pull) => match pull {
            Pull::ImageIndex { .. } => 4,
            Pull::Manifest { .. } => 3,
            Pull::ManifestFile { .. } => 2,
            Pull::ProbedIndex { .. } => 2,
            _ => 1,
        },
        SessionView::Push(push) => match push {
            Push::Manifest { .. } => 5,
            Push::Dir { .. } => 4,
            Push::Blob { .. } => 3,
            Push::Index { .. } => 2,
            Push::Entry { .. } => 1,
        },
        SessionView::Upload(upload) => match upload {
            Upload::LastBody { .. } => 7,
            Upload::Chunks { .. } => 6,
            Upload::Content { .. } => 5,
            Upload::Dir { .. } => 4,
            Upload::Blob { .. } => 3,
            Upload::Leftover { .. } => 2,
            Upload::Chunk { .. } => 6,
            Upload::ChunkDir { .. } => 5,
            Upload::Earlier { .. } => 4,
            Upload::EarlierSize { .. } => 3,
            Upload::EarlierContent { .. } => 2,
            _ => 1,
        },
        SessionView::Done(_) => 0,
    }
}

/// Every request comes to its end: whatever comes of its actions, it waits for seven outcomes at
/// most, fewer with each.
pub proof fn requests_end(session: SessionView, event: Event<Seq<char>, Seq<u8>>)
    ensures
        outcomes_left(session) <= 7,
        outcomes_left(session) == 0 <==> session is Done,
        session.awaits(event) ==> (session.after(event) matches Some(next) ==> outcomes_left(next)
            < outcomes_left(session)),
{
}

/// A request that sends a blob, at once or in chunks, is never dropped without a reply.
pub proof fn uploads_are_answered(
    upload: Upload<Seq<char>, Seq<u8>>,
    event: Event<Seq<char>, Seq<u8>>,
)
    requires
        event.answers(upload.action()),
    ensures
        upload.after(event) is Some,
{
}

/// The action leaves the files as they are.
pub open spec fn only_reads(action: Action<Seq<char>, Seq<u8>>) -> bool {
    !(action is MakeDir || action is Write || action is Delete)
}

/// A request that asks for an image or a blob changes nothing, whatever comes of its actions: it
/// only reads, from its beginning to its reply.
pub proof fn pulls_only_read(pull: Pull<Seq<char>>, event: Event<Seq<char>, Seq<u8>>)
    ensures
        only_reads(pull.action()),
        pull.after(event) matches Some(next) ==> next is Pull || next is Done,
{
}

/// What a request is about to write as a blob, or to enter for one, lies under the hash of its
/// content.
pub open spec fn is_sound(session: SessionView) -> bool {
    match session {
        SessionView::Push(push) => match push {
            Push::Dir { manifest, hash, .. } => hash == hash_of(manifest),
            Push::Blob { manifest, hash, .. } => hash == hash_of(manifest),
            Push::Index { manifest, hash, .. } => hash == hash_of(manifest),
            _ => true,
        },
        SessionView::Upload(upload) => match upload {
            Upload::Dir { blob, hash, .. } => hash == hash_of(blob),
            Upload::Blob { blob, hash, .. } => hash == hash_of(blob),
            _ => true,
        },
        _ => true,
    }
}

/// Every request begins sound, with nothing written.
pub proof fn requests_begin_sound_and_clean(
    path: Seq<char>,
    query: Seq<char>,
    range: Option<Seq<char>>,
)
    ensures
        get_started(path) matches Some(session) ==> is_sound(session) && is_clean(session),
        head_started(path) matches Some(session) ==> is_sound(session) && is_clean(session),
        is_sound(put_started(path, query)) && is_clean(put_started(path, query)),
        is_sound(post_started(path)) && is_clean(post_started(path)),
        is_sound(patch_started(path, range)) && is_clean(patch_started(path, range)),
{
}

/// What is written as a blob is written under the hash of its content, whatever comes of the
/// actions: a sound request stays sound, and what it writes as a blob lies under its hash.
pub proof fn blobs_lie_under_their_hash(session: SessionView, event: Event<Seq<char>, Seq<u8>>)
    requires
        is_sound(session),
    ensures
        session.action() matches Some(Action::Write(Location::Blob(hash), bytes)) ==> hash
            == hash_of(bytes),
        session.after(event) matches Some(next) ==> is_sound(next),
{
}

/// The request has not written anything yet.
pub open spec fn is_clean(session: SessionView) -> bool {
    match session {
        SessionView::Pull(_) => true,
        SessionView::Push(push) => push is Manifest || push is Dir || push is Blob,
        SessionView::Upload(upload) => !(upload is Leftover || upload is Cleanup),
        SessionView::Done(_) => true,
    }
}

/// The request is refused: what it asks for is wrong, or not there.
pub open spec fn is_refusal(reply: ReplyView) -> bool {
    400 <= reply.status < 500
}

/// A refused request has written nothing, whatever comes of its actions: it stays clean until it
/// writes or deletes something, and from then on it is not refused.
pub proof fn refusals_change_nothing(session: SessionView, event: Event<Seq<char>, Seq<u8>>)
    requires
        session.awaits(event),
    ensures
        is_clean(session) && !(session.action()->0 is Write || session.action()->0 is Delete) ==> (
        session.after(event) matches Some(next) ==> is_clean(next)),
        !is_clean(session) || session.action()->0 is Write || session.action()->0 is Delete ==> (
        session.after(event) matches Some(next) ==> (!is_clean(next) || (next matches
            SessionView::Done(reply) && !is_refusal(reply)))),
{
}

/// A request on its way is what it says, and one that has its reply needs nothing more and keeps it.
pub proof fn sessions_say_what_they_are(
    reply: Reply,
    pull: Pull<String>,
    push: Push<String, Vec<u8>>,
    upload: Upload<String, Vec<u8>>,
    event: Event<Seq<char>, Seq<u8>>,
)
    ensures
        Session::Done(reply)@ == SessionView::Done(reply@),
        Session::Pull(pull)@ == SessionView::Pull(pull@),
        Session::Push(push)@ == SessionView::Push(push@),
        Session::Upload(upload)@ == SessionView::Upload(upload@),
        SessionView::Done(reply@).action() is None,
        SessionView::Pull(pull@).action() == Some(pull@.action()),
        SessionView::Push(push@).action() == Some(push@.action()),
        SessionView::Upload(upload@).action() == Some(upload@.action()),
        SessionView::Pull(pull@).after(event) == pull@.after(event),
        SessionView::Push(push@).after(event) == push@.after(event),
        SessionView::Upload(upload@).after(event) == upload@.after(event),
{
}

} // verus!
