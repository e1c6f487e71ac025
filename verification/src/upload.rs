//! Blobs that are sent, at once or in chunks.
use crate::digest::{content_hash, digest_is_plain, digest_of, hash_of, DIGEST_PREFIX};
use crate::pull::{get_started, Pull};
use crate::push::{handle_put_manifest, Push};
use crate::reply::{
    Body, Reply, ReplyView, ACCEPTED, BAD_REQUEST, CREATED, INTERNAL_SERVER_ERROR, RANGE_NOT_SATISFIABLE,
};
use crate::routes::{
    byte_range, is_without, manifest_parts, manifest_path, opens_upload, parts_make_the_whole,
    range_bounds, range_reads_back, run_end, second_segment_is_found, text_view, upload_parts, upload_path,
    upload_path_is_found, uploads_name, uploads_path_is_whole,
};
use crate::session::{session_view, Session, SessionView};
use crate::storage::{is_plain, Action, Event, Location};
use crate::text::{
    chars_of, contains, contains_text, decimal, decimal_reads_back, has_prefix, is_digit, joined, occurs_at,
    replace, replaced, same_text, stands_at, text_between, to_decimal, trim_slashes,
    without_trailing_slashes,
};
use vstd::prelude::*;

verus! {

/// How far a request that sends a blob has come: what it waits for, and what it knows.
pub enum Upload<T, B> {
    /// A stamp, to name a new upload.
    Stamp { path: T },
    /// What was sent to close an upload.
    LastBody { id: T, query: T },
    /// Whether chunks were sent before.
    Chunks { id: T, query: T, body: B },
    /// The chunks that were sent before.
    Content { id: T, query: T, body: B },
    /// The directory for the blob.
    Dir { id: T, blob: B, hash: T },
    /// The blob in its file.
    Blob { id: T, blob: B, hash: T },
    /// Whether chunks are left behind.
    Leftover { id: T, hash: T },
    /// The chunks out of the way.
    Cleanup { id: T, hash: T },
    /// A chunk.
    Chunk { name: T, id: T, range: Option<T> },
    /// The directory for it.
    ChunkDir { name: T, id: T, range: Option<T>, chunk: B },
    /// Whether chunks were sent before it.
    Earlier { name: T, id: T, range: Option<T>, chunk: B },
    /// The size of the chunks before it.
    EarlierSize { name: T, id: T, range: Option<T>, chunk: B },
    /// The chunks before it.
    EarlierContent { name: T, id: T, chunk: B, before: usize },
    /// The chunks, now with this one, in their file.
    Grown { name: T, id: T, content: B, before: usize, added: usize },
}

impl View for Upload<String, Vec<u8>> {
    type V = Upload<Seq<char>, Seq<u8>>;

    open spec fn view(&self) -> Upload<Seq<char>, Seq<u8>> {
        match self {
            Upload::Stamp { path } => Upload::Stamp { path: path@ },
            Upload::LastBody { id, query } => Upload::LastBody { id: id@, query: query@ },
            Upload::Chunks { id, query, body } => Upload::Chunks {
                id: id@,
                query: query@,
                body: body@,
            },
            Upload::Content { id, query, body } => Upload::Content {
                id: id@,
                query: query@,
                body: body@,
            },
            Upload::Dir { id, blob, hash } => Upload::Dir { id: id@, blob: blob@, hash: hash@ },
            Upload::Blob { id, blob, hash } => Upload::Blob { id: id@, blob: blob@, hash: hash@ },
            Upload::Leftover { id, hash } => Upload::Leftover { id: id@, hash: hash@ },
            Upload::Cleanup { id, hash } => Upload::Cleanup { id: id@, hash: hash@ },
            Upload::Chunk { name, id, range } => Upload::Chunk {
                name: name@,
                id: id@,
                range: text_view(*range),
            },
            Upload::ChunkDir { name, id, range, chunk } => Upload::ChunkDir {
                name: name@,
                id: id@,
                range: text_view(*range),
                chunk: chunk@,
            },
            Upload::Earlier { name, id, range, chunk } => Upload::Earlier {
                name: name@,
                id: id@,
                range: text_view(*range),
                chunk: chunk@,
            },
            Upload::EarlierSize { name, id, range, chunk } => Upload::EarlierSize {
                name: name@,
                id: id@,
                range: text_view(*range),
                chunk: chunk@,
            },
            Upload::EarlierContent { name, id, chunk, before } => Upload::EarlierContent {
                name: name@,
                id: id@,
                chunk: chunk@,
                before: *before,
            },
            Upload::Grown { name, id, content, before, added } => Upload::Grown {
                name: name@,
                id: id@,
                content: content@,
                before: *before,
                added: *added,
            },
        }
    }
}

/// A parameter of the query begins at `at`, and it is the digest.
pub open spec fn is_digest_param(query: Seq<char>, at: int) -> bool {
    &&& occurs_at(query, "digest="@, at)
    &&& at == 0 || query[at - 1] == '&'
}

/// The first parameter of the query that is a digest begins at `at`.
pub open spec fn is_first_digest_param(query: Seq<char>, at: int) -> bool {
    &&& is_digest_param(query, at)
    &&& forall|i: int| 0 <= i < at ==> !is_digest_param(query, i)
}

/// `text` with its escaped colons unescaped.
pub open spec fn with_colons(text: Seq<char>) -> Seq<char> {
    replaced(replaced(text, "%3A"@, ':'), "%3a"@, ':')
}

/// The first digest among the parameters of the query, as it stands there.
pub open spec fn digest_param(query: Seq<char>) -> Seq<char> {
    if exists|at: int| is_first_digest_param(query, at) {
        let at = choose|at: int| is_first_digest_param(query, at);
        let from = at + "digest="@.len();
        query.subrange(from, run_end(query, '&', from))
    } else {
        Seq::empty()
    }
}

/// The digest that the query of a request names: nothing where it speaks of none, an empty one
/// where it speaks of one but has no such parameter.
pub open spec fn named_digest(query: Seq<char>) -> Option<Seq<char>> {
    if contains_text(query, "digest="@) {
        Some(with_colons(digest_param(query)))
    } else {
        None
    }
}

/// The place of a new upload.
pub open spec fn opened_location(path: Seq<char>, nanos: u128, pid: u32) -> Seq<char> {
    "/v2/"@ + without_trailing_slashes(path) + "/"@ + upload_id(nanos, pid)
}

/// The id of a new upload.
pub open spec fn upload_id(nanos: u128, pid: u32) -> Seq<char> {
    decimal(nanos as nat) + "-"@ + decimal(pid as nat)
}

/// The reply that an upload is open.
pub open spec fn opened_reply(path: Seq<char>, nanos: u128, pid: u32) -> ReplyView {
    ReplyView::with_status(ACCEPTED).header(
        "Location"@,
        opened_location(path, nanos, pid),
    ).versioned()
}

/// The reply that a blob was taken.
pub open spec fn stored_reply(hash: Seq<char>) -> ReplyView {
    ReplyView::with_status(CREATED).header("Docker-Content-Digest"@, DIGEST_PREFIX@ + hash).header(
        "Location"@,
        "/v2/blobs/"@ + (DIGEST_PREFIX@ + hash),
    ).versioned()
}

/// The place of an upload.
pub open spec fn upload_location(name: Seq<char>, id: Seq<char>) -> Seq<char> {
    "/v2/"@ + name + "/blobs/uploads/"@ + id
}

/// The first and the last of `size` bytes: 0 and 0 where there are none.
pub open spec fn held_range(size: int) -> Seq<char> {
    "0-"@ + decimal(
        if size > 0 {
            (size - 1) as nat
        } else {
            0
        },
    )
}

/// The reply that a chunk was taken, with how much of the blob is there now.
pub open spec fn grown_reply(name: Seq<char>, id: Seq<char>, size: int) -> ReplyView {
    ReplyView::with_status(ACCEPTED).header("Location"@, upload_location(name, id)).header(
        "Range"@,
        held_range(size),
    ).versioned()
}

/// The reply that a chunk does not follow on those before it.
pub open spec fn out_of_order_reply(size: int) -> ReplyView {
    ReplyView::with_status(RANGE_NOT_SATISFIABLE).header("Range"@, held_range(size)).text(
        "Chunk out of order"@,
    )
}

/// How a request to close an upload goes on once all that was sent for it is there.
pub open spec fn closing(id: Seq<char>, query: Seq<char>, blob: Seq<u8>) -> SessionView {
    let digest = match named_digest(query) {
        Some(digest) => digest,
        None => digest_of(blob),
    };
    if digest.len() == 0 {
        SessionView::refused(BAD_REQUEST, "Missing digest"@)
    } else if digest != digest_of(blob) {
        SessionView::refused(
            BAD_REQUEST,
            "Digest mismatch: expected "@ + digest + " got "@ + digest_of(blob),
        )
    } else {
        SessionView::Upload(Upload::Dir { id, blob, hash: hash_of(blob) })
    }
}

/// How a request to add a chunk goes on behind `before` bytes: the range has to begin where they
/// end, and to be as long as the chunk. A range that ends before it begins has no length that a
/// chunk can have, but for an empty one whose range ends right before it begins.
pub open spec fn growing(
    name: Seq<char>,
    id: Seq<char>,
    range: Option<Seq<char>>,
    chunk: Seq<u8>,
    before: usize,
) -> SessionView {
    let bounds = match range {
        Some(text) => range_bounds(text),
        None => None,
    };
    let taken = SessionView::Upload(
        if before > 0 {
            Upload::EarlierContent { name, id, chunk, before }
        } else {
            Upload::Grown { name, id, content: chunk, before, added: chunk.len() as usize }
        },
    );
    match bounds {
        Some((first, last)) => if first != before {
            SessionView::Done(out_of_order_reply(before as int))
        } else if chunk.len() != last - first + 1 {
            SessionView::refused(BAD_REQUEST, "Content-Length does not match Content-Range"@)
        } else {
            taken
        },
        None => taken,
    }
}

/// How a request to write to a path begins: it sends a manifest, or closes an upload.
pub open spec fn put_started(path: Seq<char>, query: Seq<char>) -> SessionView {
    match manifest_parts(path) {
        Some((name, reference)) => SessionView::Push(Push::Manifest { name, reference }),
        None => match upload_parts(path) {
            Some((_, id)) => SessionView::Upload(Upload::LastBody { id, query }),
            None => SessionView::not_found(),
        },
    }
}

/// How a request to start something at a path begins: it can be an upload.
pub open spec fn post_started(path: Seq<char>) -> SessionView {
    match uploads_name(path) {
        Some(_) => SessionView::Upload(Upload::Stamp { path }),
        None => SessionView::not_found(),
    }
}

/// How a request to add to a path begins: it can be a chunk for an upload.
pub open spec fn patch_started(path: Seq<char>, range: Option<Seq<char>>) -> SessionView {
    match upload_parts(path) {
        Some((name, id)) => SessionView::Upload(Upload::Chunk { name, id, range }),
        None => SessionView::not_found(),
    }
}

impl Upload<Seq<char>, Seq<u8>> {
    /// What the request needs done next.
    pub open spec fn action(self) -> Action<Seq<char>, Seq<u8>> {
        match self {
            Upload::Stamp { .. } => Action::TakeStamp,
            Upload::LastBody { .. } => Action::ReadBody,
            Upload::Chunks { id, .. } => Action::Look(Location::Upload(id)),
            Upload::Content { id, .. } => Action::ReadBytes(Location::Upload(id)),
            Upload::Dir { .. } => Action::MakeDir(Location::Blobs),
            Upload::Blob { blob, hash, .. } => Action::Write(Location::Blob(hash), blob),
            Upload::Leftover { id, .. } => Action::Look(Location::Upload(id)),
            Upload::Cleanup { id, .. } => Action::Delete(Location::Upload(id)),
            Upload::Chunk { .. } => Action::ReadBody,
            Upload::ChunkDir { .. } => Action::MakeDir(Location::Uploads),
            Upload::Earlier { id, .. } => Action::Look(Location::Upload(id)),
            Upload::EarlierSize { id, .. } => Action::Measure(Location::Upload(id)),
            Upload::EarlierContent { id, .. } => Action::ReadBytes(Location::Upload(id)),
            Upload::Grown { id, content, .. } => Action::Write(Location::Upload(id), content),
        }
    }

    /// How far the request has come once the outcome of its action is known.
    pub open spec fn after(self, event: Event<Seq<char>, Seq<u8>>) -> Option<SessionView> {
        match (self, event) {
            (Upload::Stamp { path }, Event::Stamp { nanos, pid }) => Some(
                SessionView::Done(opened_reply(path, nanos, pid)),
            ),
            (Upload::LastBody { id, query }, Event::Body(Some(body))) => Some(
                SessionView::Upload(Upload::Chunks { id, query, body }),
            ),
            (Upload::LastBody { .. } | Upload::Chunk { .. }, Event::Body(None)) => Some(
                SessionView::refused(BAD_REQUEST, "Failed to read body"@),
            ),
            (Upload::Chunks { id, query, body }, Event::Seen(seen)) => Some(
                if seen {
                    SessionView::Upload(Upload::Content { id, query, body })
                } else {
                    closing(id, query, body)
                },
            ),
            (Upload::Content { id, query, .. }, Event::Bytes(Some(content))) => Some(
                closing(id, query, content),
            ),
            (Upload::Content { id, query, body }, Event::Bytes(None)) => Some(
                closing(id, query, body),
            ),
            (Upload::Dir { id, blob, hash }, Event::Done(done)) => Some(
                if done {
                    SessionView::Upload(Upload::Blob { id, blob, hash })
                } else {
                    SessionView::refused(INTERNAL_SERVER_ERROR, "Failed to create directory"@)
                },
            ),
            (Upload::Blob { id, hash, .. }, Event::Done(done)) => Some(
                if done {
                    SessionView::Upload(Upload::Leftover { id, hash })
                } else {
                    SessionView::refused(INTERNAL_SERVER_ERROR, "Failed to write blob"@)
                },
            ),
            (Upload::Leftover { id, hash }, Event::Seen(seen)) => Some(
                if seen {
                    SessionView::Upload(Upload::Cleanup { id, hash })
                } else {
                    SessionView::Done(stored_reply(hash))
                },
            ),
            (Upload::Cleanup { hash, .. }, Event::Done(_)) => Some(
                SessionView::Done(stored_reply(hash)),
            ),
            (Upload::Chunk { name, id, range }, Event::Body(Some(chunk))) => Some(
                SessionView::Upload(Upload::ChunkDir { name, id, range, chunk }),
            ),
            (Upload::ChunkDir { name, id, range, chunk }, Event::Done(done)) => Some(
                if done {
                    SessionView::Upload(Upload::Earlier { name, id, range, chunk })
                } else {
                    SessionView::refused(
                        INTERNAL_SERVER_ERROR,
                        "Failed to create temp directory"@,
                    )
                },
            ),
            (Upload::Earlier { name, id, range, chunk }, Event::Seen(seen)) => Some(
                if seen {
                    SessionView::Upload(Upload::EarlierSize { name, id, range, chunk })
                } else {
                    growing(name, id, range, chunk, 0)
                },
            ),
            (Upload::EarlierSize { name, id, range, chunk }, Event::Size(size)) => Some(
                growing(
                    name,
                    id,
                    range,
                    chunk,
                    match size {
                        Some(size) => size as usize,
                        None => 0,
                    },
                ),
            ),
            (
                Upload::EarlierContent { name, id, chunk, before },
                Event::Bytes(Some(content)),
            ) => Some(
                SessionView::Upload(
                    Upload::Grown {
                        name,
                        id,
                        content: content + chunk,
                        before,
                        added: chunk.len() as usize,
                    },
                ),
            ),
            (Upload::EarlierContent { .. }, Event::Bytes(None)) => Some(
                SessionView::refused(
                    INTERNAL_SERVER_ERROR,
                    "Failed to read existing temp file"@,
                ),
            ),
            (Upload::Grown { .. }, Event::Done(false)) => Some(
                SessionView::refused(INTERNAL_SERVER_ERROR, "Failed to write temp file"@),
            ),
            (Upload::Grown { name, id, before, added, .. }, Event::Done(true)) => Some(
                SessionView::Done(grown_reply(name, id, before + added)),
            ),
            _ => None,
        }
    }
}

/// Answers a request to write to a path: it sends a manifest, or closes an upload.
pub fn put_handler(path: &str, query: &str) -> (session: Session)
    ensures
        session@ == put_started(path@, query@),
{
    match manifest_path(path) {
        Some((name, reference)) => handle_put_manifest(name, reference),
        None => match upload_path(path) {
            Some((_, id)) => handle_put_blob(id, query.to_owned()),
            None => Session::not_found(),
        },
    }
}

/// Begins to close an upload, or to take a blob at once.
pub fn handle_put_blob(upload_id: String, query: String) -> (session: Session)
    ensures
        session@ == SessionView::Upload(Upload::LastBody { id: upload_id@, query: query@ }),
{
    Session::Upload(Upload::LastBody { id: upload_id, query })
}

/// Answers a request to start something at a path: it can be an upload.
pub fn post_handler(path: &str) -> (session: Session)
    ensures
        session@ == post_started(path@),
{
    if opens_upload(path) {
        handle_post_blob_upload(path.to_owned())
    } else {
        Session::not_found()
    }
}

/// Begins to open an upload.
pub fn handle_post_blob_upload(path: String) -> (session: Session)
    ensures
        session@ == SessionView::Upload(Upload::Stamp { path: path@ }),
{
    Session::Upload(Upload::Stamp { path })
}

/// Answers a request to add to a path: it can be a chunk for an upload.
pub fn patch_handler(path: &str, content_range: Option<String>) -> (session: Session)
    ensures
        session@ == patch_started(path@, text_view(content_range)),
{
    match upload_path(path) {
        Some((name, id)) => handle_patch_blob(name, id, content_range),
        None => Session::not_found(),
    }
}

/// Begins to take a chunk for an upload.
pub fn handle_patch_blob(name: String, upload_id: String, content_range: Option<String>) -> (session:
    Session)
    ensures
        session@ == SessionView::Upload(
            Upload::Chunk { name: name@, id: upload_id@, range: text_view(content_range) },
        ),
{
    Session::Upload(Upload::Chunk { name, id: upload_id, range: content_range })
}

/// The first digest among the parameters of the query, as it stands there.
fn find_digest_param(query: &str) -> (encoded: String)
    ensures
        encoded@ == digest_param(query@),
{
    let chars = chars_of(query);
    let key = chars_of("digest=");
    for at in 0..chars.len()
        invariant
            chars@ == query@,
            key@ == "digest="@,
            forall|i: int| 0 <= i < at ==> !is_digest_param(query@, i),
    {
        if (at == 0 || chars[at - 1] == '&') && stands_at(&chars, &key, at) {
            let from: usize = at + key.len();
            let mut end: usize = from;
            while end < chars.len() && chars[end] != '&'
                invariant
                    chars@ == query@,
                    from <= end <= chars@.len(),
                    run_end(query@, '&', from as int) == run_end(query@, '&', end as int),
                decreases chars@.len() - end,
            {
                end = end + 1;
            }
            assert(is_first_digest_param(query@, at as int));
            return text_between(&chars, from, end);
        }
    }
    String::new()
}

/// The digest that the query of a request names.
pub fn digest_in_query(query: &str) -> (digest: Option<String>)
    ensures
        text_view(digest) == named_digest(query@),
{
    if !contains(query, "digest=") {
        return None;
    }
    proof {
        reveal_strlit("%3A");
        reveal_strlit("%3a");
    }
    let encoded = find_digest_param(query);
    let half = replace(encoded.as_str(), "%3A", ':');
    Some(replace(half.as_str(), "%3a", ':'))
}

/// Says that an upload is open, and where.
fn open_upload(path: &str, nanos: u128, pid: u32) -> (session: Session)
    ensures
        session@ == SessionView::Done(opened_reply(path@, nanos, pid)),
{
    let time = to_decimal(nanos);
    let process = to_decimal(pid as u128);
    let half = joined(time.as_str(), "-");
    let id = joined(half.as_str(), process.as_str());
    let trimmed = trim_slashes(path);
    let start = joined("/v2/", trimmed.as_str());
    let place = joined(start.as_str(), "/");
    let location = joined(place.as_str(), id.as_str());
    Session::Done(
        Reply::with_status(ACCEPTED).header("Location", location.as_str()).versioned(),
    )
}

/// Holds what was sent for an upload against the digest that the request names.
pub fn close_upload(id: String, query: &str, blob: Vec<u8>) -> (session: Session)
    ensures
        session@ == closing(id@, query@, blob@),
{
    let hash = content_hash(blob.as_slice());
    let actual = joined(DIGEST_PREFIX, hash.as_str());
    let digest = match digest_in_query(query) {
        Some(digest) => digest,
        None => actual.clone(),
    };
    if digest.as_str().is_empty() {
        return Session::refuse(BAD_REQUEST, "Missing digest");
    }
    if !same_text(digest.as_str(), actual.as_str()) {
        let expected = joined("Digest mismatch: expected ", digest.as_str());
        let got = joined(expected.as_str(), " got ");
        let message = joined(got.as_str(), actual.as_str());
        return Session::refuse(BAD_REQUEST, message.as_str());
    }
    Session::Upload(Upload::Dir { id, blob, hash })
}

/// Says that a blob was taken.
fn accept_blob(hash: &str) -> (session: Session)
    ensures
        session@ == SessionView::Done(stored_reply(hash@)),
{
    let digest = joined(DIGEST_PREFIX, hash);
    let location = joined("/v2/blobs/", digest.as_str());
    Session::Done(
        Reply::with_status(CREATED).header("Docker-Content-Digest", digest.as_str()).header(
            "Location",
            location.as_str(),
        ).versioned(),
    )
}

/// The first and the last of `size` bytes: 0 and 0 where there are none.
fn range_of(size: u128) -> (text: String)
    ensures
        text@ == held_range(size as int),
{
    let last: u128 = if size > 0 {
        size - 1
    } else {
        0
    };
    let number = to_decimal(last);
    joined("0-", number.as_str())
}

/// Says that a chunk was taken, and how much of the blob is there now.
fn accept_chunk(name: &str, id: &str, size: u128) -> (session: Session)
    ensures
        session@ == SessionView::Done(grown_reply(name@, id@, size as int)),
{
    let start = joined("/v2/", name);
    let place = joined(start.as_str(), "/blobs/uploads/");
    let location = joined(place.as_str(), id);
    let range = range_of(size);
    Session::Done(
        Reply::with_status(ACCEPTED).header("Location", location.as_str()).header(
            "Range",
            range.as_str(),
        ).versioned(),
    )
}

/// Holds a chunk against its range, and against the bytes that were sent before it.
pub fn place_chunk(
    name: String,
    id: String,
    range: Option<String>,
    chunk: Vec<u8>,
    before: usize,
) -> (session: Session)
    ensures
        session@ == growing(name@, id@, text_view(range), chunk@, before),
{
    if let Some(text) = range {
        if let Some((first, last)) = byte_range(text.as_str()) {
            if first != before {
                let held = range_of(before as u128);
                return Session::Done(
                    Reply::with_status(RANGE_NOT_SATISFIABLE).header("Range", held.as_str()).text(
                        "Chunk out of order",
                    ),
                );
            }
            if chunk.len() as u128 + first as u128 != last as u128 + 1 {
                return Session::refuse(BAD_REQUEST, "Content-Length does not match Content-Range");
            }
        }
    }
    if before > 0 {
        Session::Upload(Upload::EarlierContent { name, id, chunk, before })
    } else {
        let added: usize = chunk.len();
        Session::Upload(Upload::Grown { name, id, content: chunk, before, added })
    }
}

impl Upload<String, Vec<u8>> {
    /// What the request needs done next.
    pub fn action(&self) -> (action: Action<String, &[u8]>)
        ensures
            action@ == self@.action(),
    {
        match self {
            Upload::Stamp { .. } => Action::TakeStamp,
            Upload::LastBody { .. } => Action::ReadBody,
            Upload::Chunks { id, .. } => Action::Look(Location::Upload(id.clone())),
            Upload::Content { id, .. } => Action::ReadBytes(Location::Upload(id.clone())),
            Upload::Dir { .. } => Action::MakeDir(Location::Blobs),
            Upload::Blob { blob, hash, .. } => Action::Write(
                Location::Blob(hash.clone()),
                blob.as_slice(),
            ),
            Upload::Leftover { id, .. } => Action::Look(Location::Upload(id.clone())),
            Upload::Cleanup { id, .. } => Action::Delete(Location::Upload(id.clone())),
            Upload::Chunk { .. } => Action::ReadBody,
            Upload::ChunkDir { .. } => Action::MakeDir(Location::Uploads),
            Upload::Earlier { id, .. } => Action::Look(Location::Upload(id.clone())),
            Upload::EarlierSize { id, .. } => Action::Measure(Location::Upload(id.clone())),
            Upload::EarlierContent { id, .. } => Action::ReadBytes(Location::Upload(id.clone())),
            Upload::Grown { id, content, .. } => Action::Write(
                Location::Upload(id.clone()),
                content.as_slice(),
            ),
        }
    }

    /// Takes the request a step further, now that the outcome of its action is known. A request
    /// that sends a blob is never dropped without a reply.
    pub fn step(self, event: Event<String, Vec<u8>>) -> (next: Option<Session>)
        requires
            event@.answers(self@.action()),
        ensures
            session_view(next) == self@.after(event@),
            next is Some,
    {
        match (self, event) {
            (Upload::Stamp { path }, Event::Stamp { nanos, pid }) => Some(
                open_upload(path.as_str(), nanos, pid),
            ),
            (Upload::LastBody { id, query }, Event::Body(body)) => match body {
                Some(body) => Some(Session::Upload(Upload::Chunks { id, query, body })),
                None => Some(Session::refuse(BAD_REQUEST, "Failed to read body")),
            },
            (Upload::Chunks { id, query, body }, Event::Seen(seen)) => if seen {
                Some(Session::Upload(Upload::Content { id, query, body }))
            } else {
                Some(close_upload(id, query.as_str(), body))
            },
            (Upload::Content { id, query, body }, Event::Bytes(content)) => match content {
                Some(content) => Some(close_upload(id, query.as_str(), content)),
                None => Some(close_upload(id, query.as_str(), body)),
            },
            (Upload::Dir { id, blob, hash }, Event::Done(done)) => if done {
                Some(Session::Upload(Upload::Blob { id, blob, hash }))
            } else {
                Some(Session::refuse(INTERNAL_SERVER_ERROR, "Failed to create directory"))
            },
            (Upload::Blob { id, hash, .. }, Event::Done(done)) => if done {
                Some(Session::Upload(Upload::Leftover { id, hash }))
            } else {
                Some(Session::refuse(INTERNAL_SERVER_ERROR, "Failed to write blob"))
            },
            (Upload::Leftover { id, hash }, Event::Seen(seen)) => if seen {
                Some(Session::Upload(Upload::Cleanup { id, hash }))
            } else {
                Some(accept_blob(hash.as_str()))
            },
            (Upload::Cleanup { hash, .. }, Event::Done(_)) => Some(accept_blob(hash.as_str())),
            (Upload::Chunk { name, id, range }, Event::Body(body)) => match body {
                Some(chunk) => Some(Session::Upload(Upload::ChunkDir { name, id, range, chunk })),
                None => Some(Session::refuse(BAD_REQUEST, "Failed to read body")),
            },
            (Upload::ChunkDir { name, id, range, chunk }, Event::Done(done)) => if done {
                Some(Session::Upload(Upload::Earlier { name, id, range, chunk }))
            } else {
                Some(Session::refuse(INTERNAL_SERVER_ERROR, "Failed to create temp directory"))
            },
            (Upload::Earlier { name, id, range, chunk }, Event::Seen(seen)) => if seen {
                Some(Session::Upload(Upload::EarlierSize { name, id, range, chunk }))
            } else {
                Some(place_chunk(name, id, range, chunk, 0))
            },
            (Upload::EarlierSize { name, id, range, chunk }, Event::Size(size)) => {
                let before: usize = match size {
                    Some(size) => size as usize,
                    None => 0,
                };
                Some(place_chunk(name, id, range, chunk, before))
            },
            (Upload::EarlierContent { name, id, chunk, before }, Event::Bytes(content)) => {
                match content {
                    Some(mut content) => {
                        let added: usize = chunk.len();
                        let mut chunk = chunk;
                        content.append(&mut chunk);
                        Some(Session::Upload(Upload::Grown { name, id, content, before, added }))
                    },
                    None => Some(
                        Session::refuse(INTERNAL_SERVER_ERROR, "Failed to read existing temp file"),
                    ),
                }
            },
            (Upload::Grown { name, id, before, added, .. }, Event::Done(done)) => {
                if !done {
                    return Some(
                        Session::refuse(INTERNAL_SERVER_ERROR, "Failed to write temp file"),
                    );
                }
                let size: u128 = before as u128 + added as u128;
                Some(accept_chunk(name.as_str(), id.as_str(), size))
            },
            _ => None,
        }
    }
}

/// The id of a new upload is a plain name, without line breaks.
pub proof fn upload_id_is_plain(nanos: u128, pid: u32)
    ensures
        is_plain(upload_id(nanos, pid)),
        upload_id(nanos, pid).len() > 0,
        is_without(upload_id(nanos, pid), '/'),
        is_without(upload_id(nanos, pid), '\n'),
{
    let id = upload_id(nanos, pid);
    let front = decimal(nanos as nat);
    let back = decimal(pid as nat);
    decimal_reads_back(nanos as nat);
    decimal_reads_back(pid as nat);
    assert("-"@ =~= seq!['-']) by {
        reveal_strlit("-");
    }
    assert forall|i: int| 0 <= i < id.len() implies #[trigger] id[i] != '/' && id[i] != '\n' by {
        if i < front.len() {
            assert(id[i] == front[i] && is_digit(front[i]));
        } else if i > front.len() {
            let at = i - front.len() - 1;
            assert(id[i] == back[at] && is_digit(back[at]));
        }
    }
    assert(id.len() > 2);
}

/// A new upload is found at the place that its reply gives: that place is the one of an upload with
/// the name in the path and the new id, and is taken apart into these again.
pub proof fn new_upload_is_found(path: Seq<char>, nanos: u128, pid: u32)
    requires
        is_without(path, '\n'),
    ensures
        uploads_name(path) matches Some(name) ==> {
            let id = upload_id(nanos, pid);
            &&& opened_location(path, nanos, pid) == upload_location(name, id)
            &&& upload_location(name, id) == "/v2/"@ + (name + "/blobs/uploads/"@ + id)
            &&& upload_parts(name + "/blobs/uploads/"@ + id) == Some((name, id))
        },
{
    if let Some(name) = uploads_name(path) {
        let id = upload_id(nanos, pid);
        uploads_path_is_whole(path);
        upload_id_is_plain(nanos, pid);
        assert(is_without(name, '\n')) by {
            assert forall|i: int| 0 <= i < name.len() implies #[trigger] name[i] != '\n' by {
                assert(path[i] == name[i]);
            }
        }
        upload_path_is_found(name, id);
        assert(without_trailing_slashes(path) == name + "/blobs/uploads"@) by {
            reveal_strlit("/blobs/uploads");
            reveal_strlit("/blobs/uploads/");
            let short = name + "/blobs/uploads"@;
            assert(short.last() == 's');
            assert(without_trailing_slashes(short) == short);
            if path != short {
                assert(path.drop_last() =~= short);
                assert(path.last() == '/');
            }
        }
        assert("/blobs/uploads"@ + "/"@ =~= "/blobs/uploads/"@) by {
            reveal_strlit("/blobs/uploads");
            reveal_strlit("/blobs/uploads/");
            reveal_strlit("/");
        }
        assert("/v2/"@ + (name + "/blobs/uploads"@) + "/"@ + id =~= "/v2/"@ + name + (
        "/blobs/uploads"@ + "/"@) + id);
        assert(upload_location(name, id) =~= "/v2/"@ + (name + "/blobs/uploads/"@ + id));
    }
}

/// An upload keeps its place: the reply to a chunk gives the place that the chunk was sent to.
pub proof fn upload_keeps_its_place(path: Seq<char>)
    requires
        is_without(path, '\n'),
    ensures
        upload_parts(path) matches Some((name, id)) ==> upload_location(name, id) == "/v2/"@ + path,
{
    parts_make_the_whole(path, "/blobs/uploads/"@);
    if let Some((name, id)) = upload_parts(path) {
        assert(upload_location(name, id) =~= "/v2/"@ + (name + "/blobs/uploads/"@ + id));
    }
}

/// A blob that was taken is sent from the place that its reply gives.
pub proof fn stored_blob_is_found(blob: Seq<u8>)
    ensures
        get_started("blobs/"@ + digest_of(blob)) == Some(
            SessionView::Pull(Pull::BlobFile { hash: hash_of(blob) }),
        ),
{
    let digest = digest_of(blob);
    digest_is_plain(blob);
    assert("blobs/"@ =~= "blobs"@ + "/"@ && "blobs"@.len() > 0 && is_without("blobs"@, '/')
        && is_without("blobs"@, '\n')) by {
        reveal_strlit("blobs/");
        reveal_strlit("blobs");
        reveal_strlit("/");
    }
    second_segment_is_found("blobs"@, digest);
}

/// Up to where no `from` can begin, a text is left as it is.
proof fn replacing_leaves_the_front(front: Seq<char>, back: Seq<char>, from: Seq<char>, to: char)
    requires
        from.len() > 0,
        is_without(front, from[0]),
    ensures
        replaced(front + back, from, to) == front + replaced(back, from, to),
    decreases front.len(),
{
    let text = front + back;
    if front.len() > 0 {
        assert(text[0] == front[0]);
        if has_prefix(text, from) {
            assert(text.subrange(0, from.len() as int)[0] == from[0]);
        }
        assert(text.skip(1) =~= front.skip(1) + back);
        replacing_leaves_the_front(front.skip(1), back, from, to);
        assert(seq![front[0]] + (front.skip(1) + replaced(back, from, to)) =~= front + replaced(
            back,
            from,
            to,
        ));
    } else {
        assert(text =~= back);
        assert(replaced(back, from, to) =~= front + replaced(back, from, to));
    }
}

/// A text without `%` is left as it is.
proof fn plain_text_is_kept(text: Seq<char>)
    requires
        is_without(text, '%'),
    ensures
        replaced(text, "%3A"@, ':') == text,
        replaced(text, "%3a"@, ':') == text,
{
    let none = Seq::<char>::empty();
    reveal_strlit("%3A");
    reveal_strlit("%3a");
    replacing_leaves_the_front(text, none, "%3A"@, ':');
    replacing_leaves_the_front(text, none, "%3a"@, ':');
    assert(text + none =~= text);
}

/// An escaped colon is unescaped.
proof fn colon_is_unescaped(front: Seq<char>, back: Seq<char>)
    requires
        is_without(front, '%'),
        is_without(back, '%'),
    ensures
        with_colons(front + "%3A"@ + back) == front + ":"@ + back,
        with_colons(front + "%3a"@ + back) == front + ":"@ + back,
{
    let upper = "%3A"@ + back;
    let lower = "%3a"@ + back;
    let colon = ":"@ + back;
    reveal_strlit("%3A");
    reveal_strlit("%3a");
    reveal_strlit(":");
    assert(":"@ =~= seq![':']);
    assert(front + "%3A"@ + back =~= front + upper);
    assert(front + "%3a"@ + back =~= front + lower);
    assert(front + ":"@ + back =~= front + colon);
    plain_text_is_kept(front + colon);
    plain_text_is_kept(back);
    replacing_leaves_the_front(front, upper, "%3A"@, ':');
    replacing_leaves_the_front(front, lower, "%3A"@, ':');
    replacing_leaves_the_front(front, lower, "%3a"@, ':');
    assert(replaced(upper, "%3A"@, ':') == colon) by {
        assert(upper.subrange(0, 3) =~= "%3A"@);
        assert(upper.skip(3) =~= back);
    }
    assert(replaced(lower, "%3a"@, ':') == colon) by {
        assert(lower.subrange(0, 3) =~= "%3a"@);
        assert(lower.skip(3) =~= back);
    }
    assert(replaced(lower, "%3A"@, ':') == lower) by {
        assert(lower.subrange(0, 3)[2] == 'a');
        assert("%3A"@[2] == 'A');
        plain_text_is_kept(lower.skip(1));
        assert(seq![lower[0]] + lower.skip(1) =~= lower);
    }
}

/// `front` is what can stand in a query before its first digest, and `back` what can stand behind
/// a parameter.
pub open spec fn is_around_digest(front: Seq<char>, back: Seq<char>) -> bool {
    &&& front.len() == 0 || front.last() == '&'
    &&& !contains_text(front, "digest="@)
    &&& back.len() == 0 || back[0] == '&'
}

/// The run up to the next stop ends where the stop is.
proof fn run_ends_at_stop(text: Seq<char>, stop: char, from: int, to: int)
    requires
        0 <= from <= to <= text.len(),
        forall|i: int| from <= i < to ==> #[trigger] text[i] != stop,
        to == text.len() || text[to] == stop,
    ensures
        run_end(text, stop, from) == to,
    decreases to - from,
{
    if from < to {
        run_ends_at_stop(text, stop, from + 1, to);
    }
}

/// Before the first digest of a query no parameter is one.
proof fn no_digest_param_before(front: Seq<char>, rest: Seq<char>, at: int)
    requires
        front.len() == 0 || front.last() == '&',
        forall|at: int| #[trigger]
            occurs_at(front, "digest="@, at) ==> at > 0 && front[at - 1] != '&',
        0 <= at < front.len(),
    ensures
        !is_digest_param(front + rest, at),
{
    let key = "digest="@;
    let query = front + rest;
    let last = front.len() - 1;
    reveal_strlit("digest=");
    if is_digest_param(query, at) {
        let found = query.subrange(at, at + 7);
        assert(found == key);
        if at + 7 <= front.len() {
            assert(found =~= front.subrange(at, at + 7));
            assert(occurs_at(front, key, at));
        } else {
            assert(found[last - at] == query[last]);
            assert(is_without(key, '&'));
        }
    }
}

/// The first digest of a query begins where `digest=` comes first among its parameters.
proof fn digest_param_begins(front: Seq<char>, rest: Seq<char>)
    requires
        front.len() == 0 || front.last() == '&',
        forall|at: int| #[trigger]
            occurs_at(front, "digest="@, at) ==> at > 0 && front[at - 1] != '&',
    ensures
        is_first_digest_param(front + ("digest="@ + rest), front.len() as int),
{
    let key = "digest="@;
    let query = front + (key + rest);
    let at = front.len() as int;
    assert(query.subrange(at, at + key.len()) =~= key);
    assert forall|i: int| 0 <= i < at implies !is_digest_param(query, i) by {
        no_digest_param_before(front, key + rest, i);
    }
}

/// A parameter of a query ends where the next one begins.
proof fn param_ends(start: Seq<char>, value: Seq<char>, back: Seq<char>)
    requires
        is_without(value, '&'),
        back.len() == 0 || back[0] == '&',
    ensures
        run_end(start + value + back, '&', start.len() as int) == start.len() + value.len(),
{
    let text = start + value + back;
    let from = start.len() as int;
    let end = from + value.len();
    assert forall|i: int| from <= i < end implies #[trigger] text[i] != '&' by {
        assert(text[i] == value[i - from]);
    }
    if back.len() > 0 {
        assert(text[end] == back[0]);
    }
    run_ends_at_stop(text, '&', from, end);
}

/// The digest among the parameters of a query is read up to the next parameter.
proof fn digest_param_is_read(front: Seq<char>, digest: Seq<char>, back: Seq<char>)
    requires
        front.len() > 0 ==> front.last() == '&',
        forall|at: int| #[trigger]
            occurs_at(front, "digest="@, at) ==> at > 0 && front[at - 1] != '&',
        back.len() > 0 ==> back[0] == '&',
        is_without(digest, '&'),
    ensures
        contains_text(front + "digest="@ + digest + back, "digest="@),
        digest_param(front + "digest="@ + digest + back) == digest,
{
    let key = "digest="@;
    let query = front + key + digest + back;
    let at = front.len() as int;
    let from = at + key.len();
    digest_param_begins(front, digest + back);
    assert(query =~= front + (key + (digest + back)));
    param_ends(front + key, digest, back);
    let found = choose|at: int| is_first_digest_param(query, at);
    assert(found == at) by {
        assert(is_first_digest_param(query, at) && is_first_digest_param(query, found));
    }
    assert(query.subrange(from, from + digest.len()) =~= digest);
}

/// The digest that a query names is read as it was written, also among other parameters.
pub proof fn plain_digest_is_named(front: Seq<char>, digest: Seq<char>, back: Seq<char>)
    requires
        is_around_digest(front, back),
        is_without(digest, '&'),
        is_without(digest, '%'),
    ensures
        named_digest(front + "digest="@ + digest + back) == Some(digest),
{
    digest_param_is_read(front, digest, back);
    plain_text_is_kept(digest);
}

/// What does not stand in three texts does not stand in the text that they make.
proof fn joined_is_without(first: Seq<char>, second: Seq<char>, third: Seq<char>, c: char)
    requires
        is_without(first, c),
        is_without(second, c),
        is_without(third, c),
    ensures
        is_without(first + second + third, c),
{
    let text = first + second + third;
    let from = first.len() + second.len();
    assert forall|i: int| 0 <= i < text.len() implies #[trigger] text[i] != c by {
        if i < first.len() {
            assert(text[i] == first[i]);
        } else if i < from {
            assert(text[i] == second[i - first.len()]);
        } else {
            assert(text[i] == third[i - from]);
        }
    }
}

/// The digest that a query names is read also where its colon is escaped, in either case.
pub proof fn escaped_digest_is_named(
    front: Seq<char>,
    algorithm: Seq<char>,
    hash: Seq<char>,
    back: Seq<char>,
)
    requires
        is_around_digest(front, back),
        is_without(algorithm, '&'),
        is_without(algorithm, '%'),
        is_without(hash, '&'),
        is_without(hash, '%'),
    ensures
        named_digest(front + "digest="@ + (algorithm + "%3A"@ + hash) + back) == Some(
            algorithm + ":"@ + hash,
        ),
        named_digest(front + "digest="@ + (algorithm + "%3a"@ + hash) + back) == Some(
            algorithm + ":"@ + hash,
        ),
{
    assert(is_without("%3A"@, '&') && is_without("%3a"@, '&')) by {
        reveal_strlit("%3A");
        reveal_strlit("%3a");
    }
    joined_is_without(algorithm, "%3A"@, hash, '&');
    joined_is_without(algorithm, "%3a"@, hash, '&');
    digest_param_is_read(front, algorithm + "%3A"@ + hash, back);
    digest_param_is_read(front, algorithm + "%3a"@ + hash, back);
    colon_is_unescaped(algorithm, hash);
}

/// A query names what stands behind `digest=` in the first parameter that begins so, up to the next
/// parameter, with `%3A` and then `%3a` turned into a colon.
pub proof fn query_names_its_first_digest(front: Seq<char>, value: Seq<char>, back: Seq<char>)
    requires
        front.len() > 0 ==> front.last() == '&',
        forall|at: int| #[trigger]
            occurs_at(front, "digest="@, at) ==> at > 0 && front[at - 1] != '&',
        is_without(value, '&'),
        back.len() > 0 ==> back[0] == '&',
    ensures
        named_digest(front + "digest="@ + value + back) == Some(
            replaced(replaced(value, "%3A"@, ':'), "%3a"@, ':'),
        ),
{
    digest_param_is_read(front, value, back);
}

/// A query that does not hold `digest=` names no digest, and one that holds it only within its
/// parameters, and not where one begins, names an empty one.
pub proof fn query_without_digest_names_none(query: Seq<char>)
    ensures
        !contains_text(query, "digest="@) ==> named_digest(query) is None,
        contains_text(query, "digest="@) && (forall|at: int| #[trigger]
            occurs_at(query, "digest="@, at) ==> at > 0 && query[at - 1] != '&') ==> named_digest(
            query,
        ) == Some(Seq::<char>::empty()),
{
    reveal_strlit("%3A");
    reveal_strlit("%3a");
    if forall|at: int| #[trigger]
        occurs_at(query, "digest="@, at) ==> at > 0 && query[at - 1] != '&' {
        assert forall|at: int| !is_first_digest_param(query, at) by {
            if is_first_digest_param(query, at) {
                assert(occurs_at(query, "digest="@, at));
            }
        }
        assert(with_colons(Seq::empty()) =~= Seq::empty());
    }
}

/// A number has one form: numbers with the same form are the same.
proof fn decimal_tells_numbers_apart(a: nat, b: nat)
    requires
        decimal(a) == decimal(b),
    ensures
        a == b,
{
    decimal_reads_back(a);
    decimal_reads_back(b);
}

/// Uploads that are opened at different times, or by different processes, have different ids.
pub proof fn uploads_have_ids_of_their_own(nanos: u128, pid: u32, other: u128, process: u32)
    ensures
        upload_id(nanos, pid) == decimal(nanos as nat) + "-"@ + decimal(pid as nat),
        upload_id(nanos, pid) == upload_id(other, process) ==> nanos == other && pid == process,
{
    let a = decimal(nanos as nat);
    let b = decimal(other as nat);
    let x = decimal(pid as nat);
    let y = decimal(process as nat);
    let id = upload_id(nanos, pid);
    if id == upload_id(other, process) {
        decimal_reads_back(nanos as nat);
        decimal_reads_back(other as nat);
        assert("-"@ =~= seq!['-']) by {
            reveal_strlit("-");
        }
        if a.len() < b.len() {
            assert(id[a.len() as int] == '-' && id[a.len() as int] == b[a.len() as int]);
            assert(is_digit(b[a.len() as int]));
        } else if b.len() < a.len() {
            assert(id[b.len() as int] == '-' && id[b.len() as int] == a[b.len() as int]);
            assert(is_digit(a[b.len() as int]));
        }
        assert(a =~= id.take(a.len() as int) && b =~= id.take(b.len() as int));
        assert(x =~= id.skip(a.len() as int + 1) && y =~= id.skip(b.len() as int + 1));
        decimal_tells_numbers_apart(nanos as nat, other as nat);
        decimal_tells_numbers_apart(pid as nat, process as nat);
    }
}

/// The range that a reply gives is read as the first and the last byte of what is there: it begins
/// at nought, and ends one before the size.
pub proof fn told_range_covers_what_is_there(size: usize)
    ensures
        size > 0 ==> range_bounds(held_range(size as int)) == Some((0usize, (size - 1) as usize)),
        size > 0 ==> held_range(size as int) == "0-"@ + decimal((size - 1) as nat),
        held_range(0) == "0-0"@,
{
    assert("0-"@ =~= decimal(0) + "-"@) by {
        reveal_strlit("0-");
        reveal_strlit("-");
    }
    assert("0-"@ + decimal(0) =~= "0-0"@) by {
        reveal_strlit("0-");
        reveal_strlit("0-0");
    }
    if size > 0 {
        range_reads_back(0, (size - 1) as usize);
    }
}

/// Where uploads are: behind their name, under their id.
pub proof fn uploads_have_their_place(name: Seq<char>, id: Seq<char>)
    ensures
        upload_location(name, id) == "/v2/"@ + name + "/blobs/uploads/"@ + id,
{
}

/// A chunk goes on just where its range, if it has one, begins behind the bytes that are there and
/// has its length. Otherwise it is refused: with the range of what is there where the beginning is
/// wrong, and with nothing more where only the length is. What goes on is this chunk, to be put
/// behind those bytes.
pub proof fn chunks_are_held_against_their_range(
    name: Seq<char>,
    id: Seq<char>,
    range: Seq<char>,
    chunk: Seq<u8>,
    before: usize,
    first: usize,
    last: usize,
)
    requires
        chunk.len() <= usize::MAX,
    ensures
        ({
            let free = growing(name, id, None, chunk, before);
            let held = growing(name, id, Some(range), chunk, before);
            &&& before > 0 ==> free == SessionView::Upload(
                Upload::EarlierContent { name, id, chunk, before },
            )
            &&& before == 0 ==> free == SessionView::Upload(
                Upload::Grown {
                    name,
                    id,
                    content: chunk,
                    before: 0,
                    added: chunk.len() as usize,
                },
            )
            &&& range_bounds(range) is None ==> held == free
            &&& range_bounds(range) == Some((first, last)) ==> {
                &&& first == before && last + 1 == first + chunk.len() ==> held == free
                &&& first != before ==> held == SessionView::Done(
                    (ReplyView {
                        status: 416,
                        headers: seq![("Range"@, held_range(before as int))],
                        body: Body::Text("Chunk out of order"@),
                    }),
                )
                &&& first == before && last + 1 != first + chunk.len() ==> held
                    == SessionView::Done(
                    (ReplyView {
                        status: 400,
                        headers: Seq::empty(),
                        body: Body::Text("Content-Length does not match Content-Range"@),
                    }),
                )
            }
        }),
{
    assert(Seq::<(Seq<char>, Seq<char>)>::empty().push(("Range"@, held_range(before as int)))
        =~= seq![("Range"@, held_range(before as int))]);
}

/// What was sent for an upload is taken just where the request names its digest, or none.
/// Otherwise the request is refused, with both digests, or for want of one.
pub proof fn uploads_are_held_against_their_digest(id: Seq<char>, query: Seq<char>, blob: Seq<u8>)
    ensures
        ({
            let actual = "sha256:"@ + hash_of(blob);
            let next = closing(id, query, blob);
            &&& named_digest(query) is None || named_digest(query) == Some(actual) ==> next
                == SessionView::Upload(Upload::Dir { id, blob, hash: hash_of(blob) })
            &&& named_digest(query) matches Some(digest) ==> {
                &&& digest.len() == 0 ==> next == SessionView::Done(
                    (ReplyView {
                        status: 400,
                        headers: Seq::empty(),
                        body: Body::Text("Missing digest"@),
                    }),
                )
                &&& digest.len() > 0 && digest != actual ==> next == SessionView::Done(
                    (ReplyView {
                        status: 400,
                        headers: Seq::empty(),
                        body: Body::Text(
                            "Digest mismatch: expected "@ + digest + " got "@ + actual,
                        ),
                    }),
                )
            }
        }),
{
    digest_is_plain(blob);
}

} // verus!
