//! Images and blobs that are asked for.
use crate::digest::DIGEST_PREFIX;
use crate::index::{
    can_pull, media_type, media_type_of, probe, probed, pull_hash, pull_is_possible, pulled_hash,
};
use crate::json::{parsed, Json};
use crate::reply::{Reply, ReplyView, INTERNAL_SERVER_ERROR, NOT_FOUND, OK};
use crate::routes::{
    blob_part, blob_path, last_segment, manifest_parts, manifest_path, segment_part, text_view,
};
use crate::session::{session_view, Session, SessionView};
use crate::storage::{Action, Event, Location};
use crate::text::{decimal, has_prefix, joined, strip_prefix, to_decimal};
use vstd::prelude::*;
use vstd::utf8::encode_utf8;

verus! {

/// How far a request for an image or a blob has come: what it waits for, and what it knows.
pub enum Pull<T> {
    /// The index, to find the manifest of an image.
    ImageIndex { name: T, reference: T },
    /// The manifest, to learn its media type.
    Manifest { hash: T },
    /// The file of the manifest, to send it.
    ManifestFile { hash: T, media_type: T },
    /// The size of the opened manifest.
    ManifestSize { hash: T, media_type: T },
    /// The file of a blob, to send it.
    BlobFile { hash: T },
    /// The index, to say which manifest an image has.
    ProbedIndex { name: T, reference: T },
    /// The size of the manifest that an image has.
    ProbedSize { hash: T, media_type: T },
    /// The size of a blob.
    BlobSize { hash: T },
}

impl View for Pull<String> {
    type V = Pull<Seq<char>>;

    open spec fn view(&self) -> Pull<Seq<char>> {
        match self {
            Pull::ImageIndex { name, reference } => Pull::ImageIndex {
                name: name@,
                reference: reference@,
            },
            Pull::Manifest { hash } => Pull::Manifest { hash: hash@ },
            Pull::ManifestFile { hash, media_type } => Pull::ManifestFile {
                hash: hash@,
                media_type: media_type@,
            },
            Pull::ManifestSize { hash, media_type } => Pull::ManifestSize {
                hash: hash@,
                media_type: media_type@,
            },
            Pull::BlobFile { hash } => Pull::BlobFile { hash: hash@ },
            Pull::ProbedIndex { name, reference } => Pull::ProbedIndex {
                name: name@,
                reference: reference@,
            },
            Pull::ProbedSize { hash, media_type } => Pull::ProbedSize {
                hash: hash@,
                media_type: media_type@,
            },
            Pull::BlobSize { hash } => Pull::BlobSize { hash: hash@ },
        }
    }
}

/// The reply that carries a manifest.
pub open spec fn manifest_reply(hash: Seq<char>, media_type: Seq<char>, size: u64) -> ReplyView {
    ReplyView::with_status(OK).header("Content-Type"@, media_type).header(
        "Content-Length"@,
        decimal(size as nat),
    ).header("Docker-Content-Digest"@, DIGEST_PREFIX@ + hash).header(
        "Etag"@,
        DIGEST_PREFIX@ + hash,
    ).versioned().opened_file()
}

/// The reply that carries a blob.
pub open spec fn blob_reply(hash: Seq<char>) -> ReplyView {
    ReplyView::with_status(OK).header("Content-Type"@, "application/octet-stream"@).header(
        "Docker-Content-Digest"@,
        DIGEST_PREFIX@ + hash,
    ).header("Etag"@, DIGEST_PREFIX@ + hash).versioned().header(
        "Cache-Control"@,
        "max-age=31536000"@,
    ).opened_file()
}

/// The reply that describes a manifest or a blob without sending it.
pub open spec fn probe_reply(hash: Seq<char>, media_type: Seq<char>, size: u64) -> ReplyView {
    ReplyView::with_status(OK).header("Content-Type"@, media_type).header(
        "Content-Length"@,
        decimal(size as nat),
    ).header("Docker-Content-Digest"@, DIGEST_PREFIX@ + hash).versioned()
}

/// The reply that a file could not be opened, and why.
pub open spec fn unopened(reason: Seq<char>) -> SessionView {
    SessionView::refused(NOT_FOUND, "File not found: "@ + reason)
}

/// How a request for a path begins. Nothing where it is dropped without a reply: it asks for a
/// blob, by something that is no digest.
pub open spec fn get_started(path: Seq<char>) -> Option<SessionView> {
    match manifest_parts(path) {
        Some((name, reference)) => Some(SessionView::Pull(Pull::ImageIndex { name, reference })),
        None => match segment_part(path) {
            Some(tag) => if has_prefix(tag, DIGEST_PREFIX@) {
                Some(
                    SessionView::Pull(
                        Pull::BlobFile { hash: tag.skip(DIGEST_PREFIX@.len() as int) },
                    ),
                )
            } else {
                None
            },
            None => Some(SessionView::not_found()),
        },
    }
}

/// How a request to describe what lies at a path begins. Nothing where it is dropped without a
/// reply: it asks for a blob, by something that is no digest.
pub open spec fn head_started(path: Seq<char>) -> Option<SessionView> {
    match manifest_parts(path) {
        Some((name, reference)) => Some(SessionView::Pull(Pull::ProbedIndex { name, reference })),
        None => match blob_part(path) {
            Some(digest) => if has_prefix(digest, DIGEST_PREFIX@) {
                Some(
                    SessionView::Pull(
                        Pull::BlobSize { hash: digest.skip(DIGEST_PREFIX@.len() as int) },
                    ),
                )
            } else {
                None
            },
            None => Some(SessionView::ended(NOT_FOUND)),
        },
    }
}

impl Pull<Seq<char>> {
    /// What the request needs done next.
    pub open spec fn action(self) -> Action<Seq<char>, Seq<u8>> {
        match self {
            Pull::ImageIndex { .. } => Action::ReadText(Location::Index),
            Pull::Manifest { hash } => Action::ReadText(Location::Blob(hash)),
            Pull::ManifestFile { hash, .. } => Action::Open(Location::Blob(hash)),
            Pull::ManifestSize { .. } => Action::MeasureOpened,
            Pull::BlobFile { hash } => Action::Open(Location::Blob(hash)),
            Pull::ProbedIndex { .. } => Action::ReadText(Location::Index),
            Pull::ProbedSize { hash, .. } => Action::Measure(Location::Blob(hash)),
            Pull::BlobSize { hash } => Action::Measure(Location::Blob(hash)),
        }
    }

    /// How far the request has come once the outcome of its action is known. Nothing where it is
    /// dropped without a reply: the index cannot be read, or not be used to look the image up.
    pub open spec fn after(self, event: Event<Seq<char>, Seq<u8>>) -> Option<SessionView> {
        match (self, event) {
            (Pull::ImageIndex { name, reference }, Event::Text(Some(text))) => match parsed(
                encode_utf8(text),
            ) {
                Some(index) => if can_pull(index, name, reference) {
                    let hash = pulled_hash(index, name, reference);
                    Some(
                        if hash.len() == 0 {
                            SessionView::not_found()
                        } else {
                            SessionView::Pull(Pull::Manifest { hash })
                        },
                    )
                } else {
                    None
                },
                None => None,
            },
            (Pull::Manifest { hash }, Event::Text(Some(text))) => Some(
                match parsed(encode_utf8(text)) {
                    Some(manifest) => SessionView::Pull(
                        Pull::ManifestFile { hash, media_type: media_type(manifest) },
                    ),
                    None => SessionView::refused(
                        INTERNAL_SERVER_ERROR,
                        "Invalid manifest format"@,
                    ),
                },
            ),
            (Pull::Manifest { .. }, Event::Text(None)) => Some(SessionView::not_found()),
            (Pull::ManifestFile { hash, media_type }, Event::Opened(Ok(()))) => Some(
                SessionView::Pull(Pull::ManifestSize { hash, media_type }),
            ),
            (Pull::ManifestFile { .. }, Event::Opened(Err(reason))) => Some(unopened(reason)),
            (Pull::ManifestSize { hash, media_type }, Event::Size(Some(size))) => Some(
                SessionView::Done(manifest_reply(hash, media_type, size)),
            ),
            (Pull::ManifestSize { .. }, Event::Size(None)) => Some(
                SessionView::refused(INTERNAL_SERVER_ERROR, "Failed to get file metadata"@),
            ),
            (Pull::BlobFile { hash }, Event::Opened(Ok(()))) => Some(
                SessionView::Done(blob_reply(hash)),
            ),
            (Pull::BlobFile { .. }, Event::Opened(Err(reason))) => Some(unopened(reason)),
            (Pull::ProbedIndex { name, reference }, Event::Text(Some(text))) => Some(
                match parsed(encode_utf8(text)) {
                    Some(index) => {
                        let (hash, media_type) = probed(index, name, reference);
                        if hash.len() == 0 {
                            SessionView::ended(NOT_FOUND)
                        } else {
                            SessionView::Pull(Pull::ProbedSize { hash, media_type })
                        }
                    },
                    None => SessionView::ended(INTERNAL_SERVER_ERROR),
                },
            ),
            (Pull::ProbedIndex { .. }, Event::Text(None)) => Some(SessionView::ended(NOT_FOUND)),
            (Pull::ProbedSize { hash, media_type }, Event::Size(Some(size))) => Some(
                SessionView::Done(probe_reply(hash, media_type, size)),
            ),
            (Pull::BlobSize { hash }, Event::Size(Some(size))) => Some(
                SessionView::Done(probe_reply(hash, "application/octet-stream"@, size)),
            ),
            (Pull::ProbedSize { .. } | Pull::BlobSize { .. }, Event::Size(None)) => Some(
                SessionView::ended(NOT_FOUND),
            ),
            _ => None,
        }
    }
}

/// `digest` in full, for the hash in it.
fn digest_text(hash: &str) -> (digest: String)
    ensures
        digest@ == DIGEST_PREFIX@ + hash@,
{
    joined(DIGEST_PREFIX, hash)
}

/// Answers a request for what lies at a path: a manifest, or a blob.
pub fn handler(path: &str) -> (session: Option<Session>)
    ensures
        session_view(session) == get_started(path@),
{
    match manifest_path(path) {
        Some((name, reference)) => Some(handle_get_manifest(name, reference)),
        None => match last_segment(path) {
            Some(tag) => if strip_prefix(tag.as_str(), DIGEST_PREFIX).is_some() {
                Some(handle_get_digest(tag.as_str()))
            } else {
                None
            },
            None => Some(Session::not_found()),
        },
    }
}

/// Begins to send the manifest of an image.
pub fn handle_get_manifest(name: String, reference: String) -> (session: Session)
    ensures
        session@ == SessionView::Pull(Pull::ImageIndex { name: name@, reference: reference@ }),
{
    Session::Pull(Pull::ImageIndex { name, reference })
}

/// Begins to send a blob.
pub fn handle_get_digest(tag: &str) -> (session: Session)
    requires
        has_prefix(tag@, DIGEST_PREFIX@),
    ensures
        session@ == SessionView::Pull(
            Pull::BlobFile { hash: tag@.skip(DIGEST_PREFIX@.len() as int) },
        ),
{
    let hash = strip_prefix(tag, DIGEST_PREFIX).unwrap();
    Session::Pull(Pull::BlobFile { hash })
}

/// Answers a request to describe what lies at a path: a manifest, or a blob.
pub fn head_handler(path: &str) -> (session: Option<Session>)
    ensures
        session_view(session) == head_started(path@),
{
    match manifest_path(path) {
        Some((name, reference)) => Some(handle_head_manifest(name, reference)),
        None => match blob_path(path) {
            Some(digest) => if strip_prefix(digest.as_str(), DIGEST_PREFIX).is_some() {
                Some(handle_head_blob(digest.as_str()))
            } else {
                None
            },
            None => Some(Session::end(NOT_FOUND)),
        },
    }
}

/// Begins to describe the manifest of an image.
pub fn handle_head_manifest(name: String, reference: String) -> (session: Session)
    ensures
        session@ == SessionView::Pull(Pull::ProbedIndex { name: name@, reference: reference@ }),
{
    Session::Pull(Pull::ProbedIndex { name, reference })
}

/// Begins to describe a blob.
pub fn handle_head_blob(digest: &str) -> (session: Session)
    requires
        has_prefix(digest@, DIGEST_PREFIX@),
    ensures
        session@ == SessionView::Pull(
            Pull::BlobSize { hash: digest@.skip(DIGEST_PREFIX@.len() as int) },
        ),
{
    let hash = strip_prefix(digest, DIGEST_PREFIX).unwrap();
    Session::Pull(Pull::BlobSize { hash })
}

/// Finds the manifest of an image in the index that was read.
fn find_manifest(index: Option<String>, name: &str, reference: &str) -> (session: Option<Session>)
    ensures
        session_view(session) == (Pull::ImageIndex { name: name@, reference: reference@ }).after(
            Event::Text(text_view(index)),
        ),
{
    let text = match index {
        Some(text) => text,
        None => {
            return None;
        },
    };
    match Json::parse(text.as_str().as_bytes()) {
        Some(index) => if pull_is_possible(&index, name, reference) {
            let hash = pull_hash(&index, name, reference);
            if hash.as_str().is_empty() {
                Some(Session::not_found())
            } else {
                Some(Session::Pull(Pull::Manifest { hash }))
            }
        } else {
            None
        },
        None => None,
    }
}

/// Reads the media type off the manifest that was read.
fn type_manifest(manifest: Option<String>, hash: String) -> (session: Session)
    ensures
        Some(session@) == (Pull::Manifest { hash: hash@ }).after(Event::Text(text_view(manifest))),
{
    let text = match manifest {
        Some(text) => text,
        None => {
            return Session::not_found();
        },
    };
    match Json::parse(text.as_str().as_bytes()) {
        Some(manifest) => {
            let media_type = media_type_of(&manifest);
            Session::Pull(Pull::ManifestFile { hash, media_type })
        },
        None => Session::refuse(INTERNAL_SERVER_ERROR, "Invalid manifest format"),
    }
}

/// Finds the manifest that an image has in the index that was read.
fn probe_manifest(index: Option<String>, name: &str, reference: &str) -> (session: Session)
    ensures
        Some(session@) == (Pull::ProbedIndex { name: name@, reference: reference@ }).after(
            Event::Text(text_view(index)),
        ),
{
    let text = match index {
        Some(text) => text,
        None => {
            return Session::end(NOT_FOUND);
        },
    };
    match Json::parse(text.as_str().as_bytes()) {
        Some(index) => {
            let (hash, media_type) = probe(&index, name, reference);
            if hash.as_str().is_empty() {
                Session::end(NOT_FOUND)
            } else {
                Session::Pull(Pull::ProbedSize { hash, media_type })
            }
        },
        None => Session::end(INTERNAL_SERVER_ERROR),
    }
}

/// Says that a file could not be opened, and why.
fn not_opened(reason: &str) -> (session: Session)
    ensures
        session@ == unopened(reason@),
{
    let text = joined("File not found: ", reason);
    Session::refuse(NOT_FOUND, text.as_str())
}

/// Sends a manifest.
fn send_manifest(hash: &str, media_type: &str, size: u64) -> (session: Session)
    ensures
        session@ == SessionView::Done(manifest_reply(hash@, media_type@, size)),
{
    let digest = digest_text(hash);
    let length = to_decimal(size as u128);
    Session::Done(
        Reply::with_status(OK).header("Content-Type", media_type).header(
            "Content-Length",
            length.as_str(),
        ).header("Docker-Content-Digest", digest.as_str()).header("Etag", digest.as_str())
            .versioned().opened_file(),
    )
}

/// Sends a blob.
fn send_blob(hash: &str) -> (session: Session)
    ensures
        session@ == SessionView::Done(blob_reply(hash@)),
{
    let digest = digest_text(hash);
    Session::Done(
        Reply::with_status(OK).header("Content-Type", "application/octet-stream").header(
            "Docker-Content-Digest",
            digest.as_str(),
        ).header("Etag", digest.as_str()).versioned().header("Cache-Control", "max-age=31536000")
            .opened_file(),
    )
}

/// Describes a manifest or a blob, where its size could be taken.
fn describe(hash: &str, media_type: &str, size: Option<u64>) -> (session: Session)
    ensures
        session@ == match size {
            Some(size) => SessionView::Done(probe_reply(hash@, media_type@, size)),
            None => SessionView::ended(NOT_FOUND),
        },
{
    match size {
        Some(size) => {
            let digest = digest_text(hash);
            let length = to_decimal(size as u128);
            Session::Done(
                Reply::with_status(OK).header("Content-Type", media_type).header(
                    "Content-Length",
                    length.as_str(),
                ).header("Docker-Content-Digest", digest.as_str()).versioned(),
            )
        },
        None => Session::end(NOT_FOUND),
    }
}

impl Pull<String> {
    /// What the request needs done next.
    pub fn action(&self) -> (action: Action<String, &[u8]>)
        ensures
            action@ == self@.action(),
    {
        match self {
            Pull::ImageIndex { .. } => Action::ReadText(Location::Index),
            Pull::Manifest { hash } => Action::ReadText(Location::Blob(hash.clone())),
            Pull::ManifestFile { hash, .. } => Action::Open(Location::Blob(hash.clone())),
            Pull::ManifestSize { .. } => Action::MeasureOpened,
            Pull::BlobFile { hash } => Action::Open(Location::Blob(hash.clone())),
            Pull::ProbedIndex { .. } => Action::ReadText(Location::Index),
            Pull::ProbedSize { hash, .. } => Action::Measure(Location::Blob(hash.clone())),
            Pull::BlobSize { hash } => Action::Measure(Location::Blob(hash.clone())),
        }
    }

    /// Takes the request a step further, now that the outcome of its action is known. Nothing
    /// where it is dropped without a reply.
    pub fn step(self, event: Event<String, Vec<u8>>) -> (next: Option<Session>)
        requires
            event@.answers(self@.action()),
        ensures
            session_view(next) == self@.after(event@),
    {
        match (self, event) {
            (Pull::ImageIndex { name, reference }, Event::Text(index)) => find_manifest(
                index,
                name.as_str(),
                reference.as_str(),
            ),
            (Pull::Manifest { hash }, Event::Text(manifest)) => Some(type_manifest(manifest, hash)),
            (Pull::ManifestFile { hash, media_type }, Event::Opened(outcome)) => match outcome {
                Ok(()) => Some(Session::Pull(Pull::ManifestSize { hash, media_type })),
                Err(reason) => Some(not_opened(reason.as_str())),
            },
            (Pull::ManifestSize { hash, media_type }, Event::Size(size)) => match size {
                Some(size) => Some(send_manifest(hash.as_str(), media_type.as_str(), size)),
                None => Some(
                    Session::refuse(INTERNAL_SERVER_ERROR, "Failed to get file metadata"),
                ),
            },
            (Pull::BlobFile { hash }, Event::Opened(outcome)) => match outcome {
                Ok(()) => Some(send_blob(hash.as_str())),
                Err(reason) => Some(not_opened(reason.as_str())),
            },
            (Pull::ProbedIndex { name, reference }, Event::Text(index)) => Some(
                probe_manifest(index, name.as_str(), reference.as_str()),
            ),
            (Pull::ProbedSize { hash, media_type }, Event::Size(size)) => Some(
                describe(hash.as_str(), media_type.as_str(), size),
            ),
            (Pull::BlobSize { hash }, Event::Size(size)) => Some(
                describe(hash.as_str(), "application/octet-stream", size),
            ),
            _ => None,
        }
    }
}

} // verus!
