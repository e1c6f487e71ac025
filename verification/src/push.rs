//! Manifests that are sent.
use crate::digest::{content_hash, digest_is_plain, digest_of, hash_of, DIGEST_PREFIX};
use crate::index::{
    base_name, can_push, empty_index, enter, entering_changes_the_list_only,
    entries_stand_under_manifests, fresh_index, image, image_name, listed, make_entry, media_type,
    media_type_of, new_entry, new_entry_says_four_things, takes_entries, with_entry, OCI_MIME_TYPE,
};
use crate::json::{depth_limit, is_kept, nests, parsed, rendered, Json, JsonView};
use crate::kept::entered_index_nests;
use crate::reply::{Reply, ReplyView, BAD_REQUEST, CREATED, INTERNAL_SERVER_ERROR};
use crate::routes::{is_without, manifest_parts, manifest_path_is_found, text_view};
use crate::session::{session_view, Session, SessionView};
use crate::storage::{Action, Event, Location};
use crate::text::joined;
use vstd::prelude::*;
use vstd::utf8::encode_utf8;

verus! {

/// How far a request that sends a manifest has come: what it waits for, and what it knows.
pub enum Push<T, B> {
    /// The manifest.
    Manifest { name: T, reference: T },
    /// The directory for it.
    Dir { name: T, reference: T, manifest: B, hash: T },
    /// The manifest in its file.
    Blob { name: T, reference: T, manifest: B, hash: T },
    /// The index, to enter the manifest.
    Index { name: T, reference: T, manifest: B, hash: T },
    /// The index in its file.
    Entry { name: T, hash: T, index: T },
}

impl View for Push<String, Vec<u8>> {
    type V = Push<Seq<char>, Seq<u8>>;

    open spec fn view(&self) -> Push<Seq<char>, Seq<u8>> {
        match self {
            Push::Manifest { name, reference } => Push::Manifest {
                name: name@,
                reference: reference@,
            },
            Push::Dir { name, reference, manifest, hash } => Push::Dir {
                name: name@,
                reference: reference@,
                manifest: manifest@,
                hash: hash@,
            },
            Push::Blob { name, reference, manifest, hash } => Push::Blob {
                name: name@,
                reference: reference@,
                manifest: manifest@,
                hash: hash@,
            },
            Push::Index { name, reference, manifest, hash } => Push::Index {
                name: name@,
                reference: reference@,
                manifest: manifest@,
                hash: hash@,
            },
            Push::Entry { name, hash, index } => Push::Entry {
                name: name@,
                hash: hash@,
                index: index@,
            },
        }
    }
}

/// The reply that a manifest was taken.
pub open spec fn pushed_reply(name: Seq<char>, hash: Seq<char>) -> ReplyView {
    ReplyView::with_status(CREATED).header("Docker-Content-Digest"@, DIGEST_PREFIX@ + hash).header(
        "Location"@,
        "/v2/"@ + name + "/manifests/"@ + (DIGEST_PREFIX@ + hash),
    ).versioned()
}

/// The index in a file: an empty one where the file cannot be read, or holds no JSON.
pub open spec fn stored_index(text: Option<Seq<char>>) -> JsonView {
    match text {
        Some(text) => match parsed(encode_utf8(text)) {
            Some(index) => index,
            None => empty_index(),
        },
        None => empty_index(),
    }
}

/// The media type of a manifest: the usual one where it is no JSON.
pub open spec fn manifest_type(manifest: Seq<u8>) -> Seq<char> {
    match parsed(manifest) {
        Some(json) => media_type(json),
        None => OCI_MIME_TYPE@,
    }
}

/// The index once a manifest is in it for an image.
pub open spec fn pushed_index(
    index: JsonView,
    name: Seq<char>,
    reference: Seq<char>,
    manifest: Seq<u8>,
    hash: Seq<char>,
) -> JsonView {
    let image = image_name(name, reference);
    with_entry(
        index,
        image,
        new_entry(
            manifest_type(manifest),
            DIGEST_PREFIX@ + hash,
            manifest.len() as int,
            image,
        ),
    )
}

impl Push<Seq<char>, Seq<u8>> {
    /// What the request needs done next.
    pub open spec fn action(self) -> Action<Seq<char>, Seq<u8>> {
        match self {
            Push::Manifest { .. } => Action::ReadBody,
            Push::Dir { .. } => Action::MakeDir(Location::Blobs),
            Push::Blob { manifest, hash, .. } => Action::Write(Location::Blob(hash), manifest),
            Push::Index { .. } => Action::ReadText(Location::Index),
            Push::Entry { index, .. } => Action::Write(Location::Index, encode_utf8(index)),
        }
    }

    /// How far the request has come once the outcome of its action is known. Nothing where it is
    /// dropped without a reply: the index is neither an object nor null.
    pub open spec fn after(self, event: Event<Seq<char>, Seq<u8>>) -> Option<SessionView> {
        match (self, event) {
            (Push::Manifest { name, reference }, Event::Body(Some(manifest))) => Some(
                SessionView::Push(
                    Push::Dir { name, reference, manifest, hash: hash_of(manifest) },
                ),
            ),
            (Push::Manifest { .. }, Event::Body(None)) => Some(
                SessionView::refused(BAD_REQUEST, "Failed to read body"@),
            ),
            (Push::Dir { name, reference, manifest, hash }, Event::Done(done)) => Some(
                if done {
                    SessionView::Push(Push::Blob { name, reference, manifest, hash })
                } else {
                    SessionView::refused(INTERNAL_SERVER_ERROR, "Failed to create directory"@)
                },
            ),
            (Push::Blob { name, reference, manifest, hash }, Event::Done(done)) => Some(
                if done {
                    SessionView::Push(Push::Index { name, reference, manifest, hash })
                } else {
                    SessionView::refused(INTERNAL_SERVER_ERROR, "Failed to write manifest"@)
                },
            ),
            (Push::Index { name, reference, manifest, hash }, Event::Text(text)) => if can_push(
                stored_index(text),
            ) {
                Some(
                    SessionView::Push(
                        Push::Entry {
                            name,
                            hash,
                            index: rendered(
                                pushed_index(stored_index(text), name, reference, manifest, hash),
                            ),
                        },
                    ),
                )
            } else {
                None
            },
            (Push::Entry { name, hash, .. }, Event::Done(done)) => Some(
                if done {
                    SessionView::Done(pushed_reply(name, hash))
                } else {
                    SessionView::refused(INTERNAL_SERVER_ERROR, "Failed to update index"@)
                },
            ),
            _ => None,
        }
    }
}

/// Begins to take a manifest for an image.
pub fn handle_put_manifest(name: String, reference: String) -> (session: Session)
    ensures
        session@ == SessionView::Push(Push::Manifest { name: name@, reference: reference@ }),
{
    Session::Push(Push::Manifest { name, reference })
}

/// The media type of a manifest: the usual one where it is no JSON.
fn type_of_manifest(manifest: &[u8]) -> (text: String)
    ensures
        text@ == manifest_type(manifest@),
{
    match Json::parse(manifest) {
        Some(json) => media_type_of(&json),
        None => OCI_MIME_TYPE.to_owned(),
    }
}

/// The index in a file: an empty one where the file cannot be read, or holds no JSON.
fn index_in(text: Option<String>) -> (index: Json)
    ensures
        index@ == stored_index(text_view(text)),
        nests(index@, depth_limit()),
{
    proof {
        reveal_with_fuel(nests, 3);
    }
    match text {
        Some(text) => match Json::parse(text.as_str().as_bytes()) {
            Some(index) => index,
            None => fresh_index(),
        },
        None => fresh_index(),
    }
}

/// Enters a manifest for an image into an index.
pub fn push_entry(
    index: Json,
    name: &str,
    reference: &str,
    manifest: &[u8],
    hash: &str,
) -> (updated: Json)
    requires
        can_push(index@),
    ensures
        updated@ == pushed_index(index@, name@, reference@, manifest@, hash@),
{
    let media_type = type_of_manifest(manifest);
    let image = image(name, reference);
    let digest = joined(DIGEST_PREFIX, hash);
    let entry = make_entry(
        media_type.as_str(),
        digest.as_str(),
        manifest.len(),
        image.as_str(),
    );
    enter(index, image.as_str(), entry)
}

/// Says that a manifest was taken.
fn accept(name: &str, hash: &str) -> (session: Session)
    ensures
        session@ == SessionView::Done(pushed_reply(name@, hash@)),
{
    let digest = joined(DIGEST_PREFIX, hash);
    let start = joined("/v2/", name);
    let place = joined(start.as_str(), "/manifests/");
    let location = joined(place.as_str(), digest.as_str());
    Session::Done(
        Reply::with_status(CREATED).header("Docker-Content-Digest", digest.as_str()).header(
            "Location",
            location.as_str(),
        ).versioned(),
    )
}

impl Push<String, Vec<u8>> {
    /// What the request needs done next.
    pub fn action(&self) -> (action: Action<String, &[u8]>)
        ensures
            action@ == self@.action(),
    {
        match self {
            Push::Manifest { .. } => Action::ReadBody,
            Push::Dir { .. } => Action::MakeDir(Location::Blobs),
            Push::Blob { manifest, hash, .. } => Action::Write(
                Location::Blob(hash.clone()),
                manifest.as_slice(),
            ),
            Push::Index { .. } => Action::ReadText(Location::Index),
            Push::Entry { index, .. } => Action::Write(Location::Index, index.as_str().as_bytes()),
        }
    }

    /// Takes the request a step further, now that the outcome of its action is known. Nothing
    /// where it is dropped without a reply.
    pub fn step(self, event: Event<String, Vec<u8>>) -> (next: Option<Session>)
        requires
            event@.answers(self@.action()),
        ensures
            session_view(next) == self@.after(event@),
            self@ matches Push::Index { name, reference, manifest, hash } ==> (event@ matches
                Event::Text(text) ==> (next is Some ==> is_kept(
                pushed_index(stored_index(text), name, reference, manifest, hash),
            ))),
    {
        match (self, event) {
            (Push::Manifest { name, reference }, Event::Body(body)) => match body {
                Some(manifest) => {
                    let hash = content_hash(manifest.as_slice());
                    Some(Session::Push(Push::Dir { name, reference, manifest, hash }))
                },
                None => Some(Session::refuse(BAD_REQUEST, "Failed to read body")),
            },
            (Push::Dir { name, reference, manifest, hash }, Event::Done(done)) => if done {
                Some(Session::Push(Push::Blob { name, reference, manifest, hash }))
            } else {
                Some(Session::refuse(INTERNAL_SERVER_ERROR, "Failed to create directory"))
            },
            (Push::Blob { name, reference, manifest, hash }, Event::Done(done)) => if done {
                Some(Session::Push(Push::Index { name, reference, manifest, hash }))
            } else {
                Some(Session::refuse(INTERNAL_SERVER_ERROR, "Failed to write manifest"))
            },
            (Push::Index { name, reference, manifest, hash }, Event::Text(text)) => {
                let index = index_in(text);
                if !takes_entries(&index) {
                    return None;
                }
                proof {
                    entered_index_nests(
                        index@,
                        manifest_type(manifest@),
                        DIGEST_PREFIX@ + hash@,
                        manifest@.len() as int,
                        image_name(name@, reference@),
                    );
                }
                let updated = push_entry(
                    index,
                    name.as_str(),
                    reference.as_str(),
                    manifest.as_slice(),
                    hash.as_str(),
                );
                Some(Session::Push(Push::Entry { name, hash, index: updated.render() }))
            },
            (Push::Entry { name, hash, .. }, Event::Done(done)) => if done {
                Some(accept(name.as_str(), hash.as_str()))
            } else {
                Some(Session::refuse(INTERNAL_SERVER_ERROR, "Failed to update index"))
            },
            _ => None,
        }
    }
}

/// A manifest that was taken is found at the place that its reply gives: that place is taken apart
/// into the name and the digest.
pub proof fn pushed_manifest_is_found(name: Seq<char>, manifest: Seq<u8>)
    requires
        name.len() > 0,
        is_without(name, '\n'),
    ensures
        manifest_parts(name + "/manifests/"@ + digest_of(manifest)) == Some(
            (name, digest_of(manifest)),
        ),
{
    digest_is_plain(manifest);
    manifest_path_is_found(name, digest_of(manifest));
}

/// The media type of a manifest is the one that it names, whatever else it holds: the text under
/// `mediaType` where the manifest is an object with one there, and otherwise the usual one.
pub proof fn manifest_names_its_type(manifest: Seq<u8>, members: Map<Seq<char>, JsonView>, text: Seq<
    char,
>)
    ensures
        parsed(manifest) == Some(
            JsonView::Object(members.insert("mediaType"@, JsonView::Text(text))),
        ) ==> manifest_type(manifest) == text,
        (parsed(manifest) matches Some(json) ==> !(json.member("mediaType"@) is Text))
            ==> manifest_type(manifest) == "application/vnd.oci.image.manifest.v1+json"@,
{
}

/// The index in a file is what the file holds, where that is JSON; and a push enters the manifest
/// there for `name:reference`, with the type that it names, its digest and its size.
pub proof fn push_enters_the_manifest(
    text: Seq<char>,
    index: JsonView,
    name: Seq<char>,
    reference: Seq<char>,
    manifest: Seq<u8>,
    hash: Seq<char>,
)
    requires
        listed(index) is Some,
    ensures
        parsed(encode_utf8(text)) == Some(index) ==> stored_index(Some(text)) == index,
        parsed(encode_utf8(text)) is None ==> stored_index(Some(text)) == stored_index(None),
        listed(stored_index(None)) == Some(Seq::<JsonView>::empty()),
        ({
            let pushed = listed(pushed_index(index, name, reference, manifest, hash));
            &&& pushed is Some
            &&& pushed->0.len() > 0
            &&& pushed->0.last().member("annotations"@).member(
                "org.opencontainers.image.base.name"@,
            ) == JsonView::Text(name + ":"@ + reference)
            &&& pushed->0.last().member("digest"@) == JsonView::Text("sha256:"@ + hash)
            &&& pushed->0.last().member("mediaType"@) == JsonView::Text(manifest_type(manifest))
            &&& pushed->0.last().member("size"@) == JsonView::Integer(manifest.len() as int)
            &&& pushed->0.drop_last() == listed(index)->0.filter(
                |old: JsonView| base_name(old) != Some(name + ":"@ + reference),
            )
        }),
{
    let image = name + ":"@ + reference;
    let media = manifest_type(manifest);
    let digest = "sha256:"@ + hash;
    let size = manifest.len() as int;
    let entry = new_entry(media, digest, size, image);
    entries_stand_under_manifests(Map::empty(), Seq::empty(), index);
    new_entry_says_four_things(media, digest, size, image, ""@);
    entering_changes_the_list_only(index, image, entry, ""@);
    let kept = listed(index)->0.filter(|old: JsonView| base_name(old) != Some(image));
    assert(kept.push(entry).drop_last() =~= kept);
}

} // verus!
