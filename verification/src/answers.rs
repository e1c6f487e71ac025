//! What requests are answered, header by header, and what becomes of them where something fails.
use crate::digest::hash_of;
use crate::index::{can_pull, can_push, media_type, probed, pulled_hash};
use crate::json::{parsed, JsonView};
use crate::laws::found_index;
use crate::pull::{
    blob_reply, get_started, head_started, manifest_reply, probe_reply, unopened, Pull,
};
use crate::push::{pushed_reply, Push};
use crate::reply::{version_view, Body, ReplyView};
use crate::routes::{blob_part, manifest_parts, segment_part, upload_parts, uploads_name};
use crate::session::SessionView;
use crate::storage::{is_plain, Action, Event, Location};
use crate::text::{
    decimal, decimal_reads_back, decimal_value, has_prefix, is_digit, prefix_is_the_front,
    without_trailing_slashes,
};
use crate::upload::{
    closing, grown_reply, growing, opened_reply, out_of_order_reply, patch_started, post_started,
    put_started, stored_reply, upload_id, Upload,
};
use crate::world::{hash_is_plain, outcome, run, served, World};
use vstd::prelude::*;
use vstd::utf8::{decode_utf8, decode_utf8_encode_utf8, encode_utf8, valid_utf8};

verus! {

/// A text is a number in decimal, and reads back as it.
pub open spec fn tells(text: Seq<char>, n: nat) -> bool {
    &&& text.len() > 0
    &&& forall|i: int| 0 <= i < text.len() ==> "0123456789"@.contains(#[trigger] text[i])
    &&& decimal_value(text) == n
}

/// The decimal form of a number tells it.
proof fn decimal_tells(n: nat)
    ensures
        tells(decimal(n), n),
{
    decimal_reads_back(n);
    reveal_strlit("0123456789");
    assert forall|i: int| 0 <= i < decimal(n).len() implies "0123456789"@.contains(
        #[trigger] decimal(n)[i],
    ) by {
        assert(is_digit(decimal(n)[i]));
        assert("0123456789"@[decimal(n)[i] as int - '0' as int] == decimal(n)[i]);
    }
}

/// The reply with a manifest has its media type, its size in full, its digest twice, the version, and
/// the manifest for its body.
pub proof fn manifest_reply_holds(hash: Seq<char>, media: Seq<char>, size: u64)
    ensures
        ({
            let reply = manifest_reply(hash, media, size);
            let length = reply.headers[1].1;
            &&& reply.status == 200
            &&& reply.headers == seq![
                ("Content-Type"@, media),
                ("Content-Length"@, length),
                ("Docker-Content-Digest"@, "sha256:"@ + hash),
                ("Etag"@, "sha256:"@ + hash),
                ("Docker-Distribution-Api-Version"@, "registry/2.0"@),
            ]
            &&& tells(length, size as nat)
            &&& reply.body == Body::<Seq<char>>::OpenedFile
        }),
{
    decimal_tells(size as nat);
    let reply = manifest_reply(hash, media, size);
    assert(reply.headers =~= seq![
        ("Content-Type"@, media),
        ("Content-Length"@, decimal(size as nat)),
        ("Docker-Content-Digest"@, "sha256:"@ + hash),
        ("Etag"@, "sha256:"@ + hash),
        ("Docker-Distribution-Api-Version"@, "registry/2.0"@),
    ]);
}

/// The reply with a blob has its digest twice, the version, and the blob for its body.
pub proof fn blob_reply_holds(hash: Seq<char>)
    ensures
        blob_reply(hash) == (ReplyView {
            status: 200,
            headers: seq![
                ("Content-Type"@, "application/octet-stream"@),
                ("Docker-Content-Digest"@, "sha256:"@ + hash),
                ("Etag"@, "sha256:"@ + hash),
                ("Docker-Distribution-Api-Version"@, "registry/2.0"@),
                ("Cache-Control"@, "max-age=31536000"@),
            ],
            body: Body::OpenedFile,
        }),
{
    assert(blob_reply(hash).headers =~= seq![
        ("Content-Type"@, "application/octet-stream"@),
        ("Docker-Content-Digest"@, "sha256:"@ + hash),
        ("Etag"@, "sha256:"@ + hash),
        ("Docker-Distribution-Api-Version"@, "registry/2.0"@),
        ("Cache-Control"@, "max-age=31536000"@),
    ]);
}

/// The reply that describes something has its media type, its size in full and its digest, the
/// version, and no body.
pub proof fn probe_reply_holds(hash: Seq<char>, media: Seq<char>, size: u64)
    ensures
        ({
            let reply = probe_reply(hash, media, size);
            let length = reply.headers[1].1;
            &&& reply.status == 200
            &&& reply.headers == seq![
                ("Content-Type"@, media),
                ("Content-Length"@, length),
                ("Docker-Content-Digest"@, "sha256:"@ + hash),
                ("Docker-Distribution-Api-Version"@, "registry/2.0"@),
            ]
            &&& tells(length, size as nat)
            &&& reply.body == Body::<Seq<char>>::Empty
        }),
{
    decimal_tells(size as nat);
    let reply = probe_reply(hash, media, size);
    assert(reply.headers =~= seq![
        ("Content-Type"@, media),
        ("Content-Length"@, decimal(size as nat)),
        ("Docker-Content-Digest"@, "sha256:"@ + hash),
        ("Docker-Distribution-Api-Version"@, "registry/2.0"@),
    ]);
}

/// The reply to a pushed manifest has its digest, and the place where it is found by that.
pub proof fn pushed_reply_holds(name: Seq<char>, hash: Seq<char>)
    ensures
        pushed_reply(name, hash) == (ReplyView {
            status: 201,
            headers: seq![
                ("Docker-Content-Digest"@, "sha256:"@ + hash),
                ("Location"@, "/v2/"@ + name + "/manifests/"@ + ("sha256:"@ + hash)),
                ("Docker-Distribution-Api-Version"@, "registry/2.0"@),
            ],
            body: Body::Empty,
        }),
{
    assert(pushed_reply(name, hash).headers =~= seq![
        ("Docker-Content-Digest"@, "sha256:"@ + hash),
        ("Location"@, "/v2/"@ + name + "/manifests/"@ + ("sha256:"@ + hash)),
        ("Docker-Distribution-Api-Version"@, "registry/2.0"@),
    ]);
}

/// The reply to a stored blob has its digest, and a place where it is found by that.
pub proof fn stored_reply_holds(hash: Seq<char>)
    ensures
        stored_reply(hash) == (ReplyView {
            status: 201,
            headers: seq![
                ("Docker-Content-Digest"@, "sha256:"@ + hash),
                ("Location"@, "/v2/blobs/"@ + ("sha256:"@ + hash)),
                ("Docker-Distribution-Api-Version"@, "registry/2.0"@),
            ],
            body: Body::Empty,
        }),
{
    assert(stored_reply(hash).headers =~= seq![
        ("Docker-Content-Digest"@, "sha256:"@ + hash),
        ("Location"@, "/v2/blobs/"@ + ("sha256:"@ + hash)),
        ("Docker-Distribution-Api-Version"@, "registry/2.0"@),
    ]);
}

/// The reply to a chunk has the place of its upload, and the range of all that is there, in full.
pub proof fn grown_reply_holds(name: Seq<char>, id: Seq<char>, size: nat)
    ensures
        ({
            let reply = grown_reply(name, id, size as int);
            let last = reply.headers[1].1.skip(2);
            &&& reply.status == 202
            &&& reply.headers == seq![
                ("Location"@, "/v2/"@ + name + "/blobs/uploads/"@ + id),
                ("Range"@, "0-"@ + last),
                ("Docker-Distribution-Api-Version"@, "registry/2.0"@),
            ]
            &&& tells(
                last,
                if size > 0 {
                    (size - 1) as nat
                } else {
                    0
                },
            )
            &&& reply.body == Body::<Seq<char>>::Empty
        }),
{
    let last = if size > 0 {
        (size - 1) as nat
    } else {
        0
    };
    reveal_strlit("0-");
    decimal_tells(last);
    let reply = grown_reply(name, id, size as int);
    assert(("0-"@ + decimal(last)).skip(2) =~= decimal(last));
    assert(reply.headers =~= seq![
        ("Location"@, "/v2/"@ + name + "/blobs/uploads/"@ + id),
        ("Range"@, "0-"@ + decimal(last)),
        ("Docker-Distribution-Api-Version"@, "registry/2.0"@),
    ]);
}

/// The reply to a chunk that does not follow on what is there has the range of that, in full.
pub proof fn out_of_order_reply_holds(size: nat)
    ensures
        ({
            let reply = out_of_order_reply(size as int);
            let last = reply.headers[0].1.skip(2);
            &&& reply.status == 416
            &&& reply.headers == seq![("Range"@, "0-"@ + last)]
            &&& tells(
                last,
                if size > 0 {
                    (size - 1) as nat
                } else {
                    0
                },
            )
            &&& reply.body == Body::Text("Chunk out of order"@)
        }),
{
    let last = if size > 0 {
        (size - 1) as nat
    } else {
        0
    };
    reveal_strlit("0-");
    decimal_tells(last);
    let reply = out_of_order_reply(size as int);
    assert(("0-"@ + decimal(last)).skip(2) =~= decimal(last));
    assert(reply.headers =~= seq![("Range"@, "0-"@ + decimal(last))]);
}

/// The reply to a request for the version alone.
pub proof fn version_reply_holds()
    ensures
        version_view() == (ReplyView {
            status: 200,
            headers: seq![
                ("Content-Type"@, "application/json; charset=utf-8"@),
                ("Docker-Distribution-Api-Version"@, "registry/2.0"@),
                ("X-Content-Type-Options"@, "nosniff"@),
            ],
            body: Body::Empty,
        }),
{
    assert(version_view().headers =~= seq![
        ("Content-Type"@, "application/json; charset=utf-8"@),
        ("Docker-Distribution-Api-Version"@, "registry/2.0"@),
        ("X-Content-Type-Options"@, "nosniff"@),
    ]);
}

/// Refusals have a status and a text, and nothing else.
pub proof fn refusals_hold(status: u16, text: Seq<char>)
    ensures
        SessionView::refused(status, text) == SessionView::Done(
            (ReplyView { status, headers: Seq::empty(), body: Body::Text(text) }),
        ),
        SessionView::ended(status) == SessionView::Done(
            (ReplyView { status, headers: Seq::empty(), body: Body::Empty }),
        ),
        SessionView::not_found() == SessionView::Done(
            (ReplyView { status: 404, headers: Seq::empty(), body: Body::Text("Not Found"@) }),
        ),
        unopened(text) == SessionView::Done(
            (ReplyView {
                status: 404,
                headers: Seq::empty(),
                body: Body::Text("File not found: "@ + text),
            }),
        ),
{
}

/// An upload is opened with a place behind the path it was asked for at: its name, and a new id.
pub proof fn upload_is_opened(world: World, path: Seq<char>, name: Seq<char>)
    requires
        path == name + "/blobs/uploads"@ || path == name + "/blobs/uploads/"@,
    ensures
        served(SessionView::Upload(Upload::Stamp { path }), world) == (
            Some(
                SessionView::Done(
                    (ReplyView {
                        status: 202,
                        headers: seq![
                            (
                                "Location"@,
                                "/v2/"@ + name + "/blobs/uploads/"@ + upload_id(
                                    world.nanos,
                                    world.pid,
                                ),
                            ),
                            ("Docker-Distribution-Api-Version"@, "registry/2.0"@),
                        ],
                        body: Body::Empty,
                    }),
                ),
            ),
            world,
        ),
{
    let id = upload_id(world.nanos, world.pid);
    let short = name + "/blobs/uploads"@;
    let reply = opened_reply(path, world.nanos, world.pid);
    let location = "/v2/"@ + name + "/blobs/uploads/"@ + id;
    assert(without_trailing_slashes(path) == short) by {
        reveal_strlit("/blobs/uploads");
        reveal_strlit("/blobs/uploads/");
        assert(short.last() == 's');
        assert(without_trailing_slashes(short) == short);
        if path != short {
            assert(path.drop_last() =~= short);
            assert(path.last() == '/');
        }
    }
    assert("/v2/"@ + short + "/"@ + id =~= location) by {
        reveal_strlit("/blobs/uploads");
        reveal_strlit("/blobs/uploads/");
        reveal_strlit("/");
    }
    assert(reply.headers =~= seq![
        ("Location"@, location),
        ("Docker-Distribution-Api-Version"@, "registry/2.0"@),
    ]);
    reveal_with_fuel(run, 2);
}

/// Requests to send begin by their path: for a manifest where it names one, else for the blob that
/// its last segment names. They are dropped where that is no digest, and find nothing where there is
/// no such segment.
pub proof fn get_requests_begin(path: Seq<char>, hash: Seq<char>)
    ensures
        manifest_parts(path) matches Some((name, reference)) ==> get_started(path) == Some(
            SessionView::Pull(Pull::ImageIndex { name, reference }),
        ),
        manifest_parts(path) is None ==> {
            &&& segment_part(path) == Some("sha256:"@ + hash) ==> get_started(path) == Some(
                SessionView::Pull(Pull::BlobFile { hash }),
            )
            &&& segment_part(path) matches Some(tag) ==> (!has_prefix(tag, "sha256:"@)
                ==> get_started(path) is None)
            &&& segment_part(path) is None ==> get_started(path) == Some(
                SessionView::Done(
                    (ReplyView {
                        status: 404,
                        headers: Seq::empty(),
                        body: Body::Text("Not Found"@),
                    }),
                ),
            )
        },
{
    prefix_is_the_front("sha256:"@ + hash, "sha256:"@, hash);
    assert(("sha256:"@ + hash).skip("sha256:"@.len() as int) =~= hash);
}

/// Requests to describe begin by their path: for a manifest where it names one, else for the blob
/// that it names. They are dropped where that is no digest, and find nothing where there is no such
/// name.
pub proof fn head_requests_begin(path: Seq<char>, hash: Seq<char>)
    ensures
        manifest_parts(path) matches Some((name, reference)) ==> head_started(path) == Some(
            SessionView::Pull(Pull::ProbedIndex { name, reference }),
        ),
        manifest_parts(path) is None ==> {
            &&& blob_part(path) == Some("sha256:"@ + hash) ==> head_started(path) == Some(
                SessionView::Pull(Pull::BlobSize { hash }),
            )
            &&& blob_part(path) matches Some(digest) ==> (!has_prefix(digest, "sha256:"@)
                ==> head_started(path) is None)
            &&& blob_part(path) is None ==> head_started(path) == Some(
                SessionView::Done(
                    (ReplyView { status: 404, headers: Seq::empty(), body: Body::Empty }),
                ),
            )
        },
{
    prefix_is_the_front("sha256:"@ + hash, "sha256:"@, hash);
    assert(("sha256:"@ + hash).skip("sha256:"@.len() as int) =~= hash);
}

/// Requests to write begin by their path: with a manifest where it names one, else with an upload
/// where it names one; requests to start and to add begin where their path is for that. All others
/// find nothing.
pub proof fn writing_requests_begin(path: Seq<char>, query: Seq<char>, range: Option<Seq<char>>)
    ensures
        ({
            let nothing = SessionView::Done(
                (ReplyView {
                    status: 404,
                    headers: Seq::empty(),
                    body: Body::Text("Not Found"@),
                }),
            );
            &&& manifest_parts(path) matches Some((name, reference)) ==> put_started(path, query)
                == SessionView::Push(Push::Manifest { name, reference })
            &&& manifest_parts(path) is None ==> {
                &&& upload_parts(path) matches Some((name, id)) ==> put_started(path, query)
                    == SessionView::Upload(Upload::LastBody { id, query })
                &&& upload_parts(path) is None ==> put_started(path, query) == nothing
            }
            &&& upload_parts(path) matches Some((name, id)) ==> patch_started(path, range)
                == SessionView::Upload(Upload::Chunk { name, id, range })
            &&& upload_parts(path) is None ==> patch_started(path, range) == nothing
            &&& uploads_name(path) is Some ==> post_started(path) == SessionView::Upload(
                Upload::Stamp { path },
            )
            &&& uploads_name(path) is None ==> post_started(path) == nothing
        }),
{
}

/// A blob that is there is sent, as it lies in the file of its hash; of one that is not there, that is
/// said. Nothing changes.
pub proof fn blob_is_sent_if_there(world: World, hash: Seq<char>)
    requires
        is_plain(hash),
    ensures
        world.files.contains_key(Location::Blob(hash)) ==> served(
            SessionView::Pull(Pull::BlobFile { hash }),
            world,
        ) == (
            Some(SessionView::Done(blob_reply(hash))),
            World { opened: Some(Location::Blob(hash)), ..world },
        ),
        !world.files.contains_key(Location::Blob(hash)) ==> served(
            SessionView::Pull(Pull::BlobFile { hash }),
            world,
        ) == (
            Some(
                SessionView::Done(
                    (ReplyView {
                        status: 404,
                        headers: Seq::empty(),
                        body: Body::Text("File not found: "@ + world.reason),
                    }),
                ),
            ),
            world,
        ),
{
    reveal_with_fuel(run, 2);
}

/// A blob that is there is described with the size of its file, which the reply tells in full; one
/// that is not there is not found. Nothing changes.
pub proof fn blob_is_described_in_full(world: World, hash: Seq<char>)
    requires
        is_plain(hash),
        world.files[Location::Blob(hash)].len() <= u64::MAX,
    ensures
        served(SessionView::Pull(Pull::BlobSize { hash }), world).1 == world,
        world.files.contains_key(Location::Blob(hash)) ==> (served(
            SessionView::Pull(Pull::BlobSize { hash }),
            world,
        ).0 matches Some(SessionView::Done(reply)) && {
            let length = reply.headers[1].1;
            &&& reply.status == 200
            &&& reply.headers == seq![
                ("Content-Type"@, "application/octet-stream"@),
                ("Content-Length"@, length),
                ("Docker-Content-Digest"@, "sha256:"@ + hash),
                ("Docker-Distribution-Api-Version"@, "registry/2.0"@),
            ]
            &&& tells(length, world.files[Location::Blob(hash)].len())
            &&& reply.body == Body::<Seq<char>>::Empty
        }),
        !world.files.contains_key(Location::Blob(hash)) ==> served(
            SessionView::Pull(Pull::BlobSize { hash }),
            world,
        ).0 == Some(
            SessionView::Done(
                (ReplyView { status: 404, headers: Seq::empty(), body: Body::Empty }),
            ),
        ),
{
    let size = world.files[Location::Blob(hash)].len() as u64;
    probe_reply_holds(hash, "application/octet-stream"@, size);
    reveal_with_fuel(run, 2);
}

/// What is read of an index that is there, and is text, is what its file holds.
proof fn index_is_read(world: World)
    requires
        world.files.contains_key(Location::Index),
        valid_utf8(world.files[Location::Index]),
    ensures
        outcome(world, Action::ReadText(Location::Index)) == Event::<Seq<char>, Seq<u8>>::Text(
            Some(decode_utf8(world.files[Location::Index])),
        ),
        encode_utf8(decode_utf8(world.files[Location::Index])) == world.files[Location::Index],
{
    decode_utf8_encode_utf8(world.files[Location::Index]);
}

/// An image is described with what the index leads to: the media type there, the digest, and the size
/// of the file of that, in full. It is not found where the index leads nowhere, or to no file.
pub proof fn image_is_described_from_the_index(
    world: World,
    name: Seq<char>,
    reference: Seq<char>,
    index: JsonView,
)
    requires
        world.files.contains_key(Location::Index),
        valid_utf8(world.files[Location::Index]),
        parsed(world.files[Location::Index]) == Some(index),
    ensures
        ({
            let (hash, media) = probed(index, name, reference);
            let at = Location::Blob(hash);
            let request = SessionView::Pull(Pull::ProbedIndex { name, reference });
            let nothing = SessionView::Done(
                (ReplyView { status: 404, headers: Seq::empty(), body: Body::Empty }),
            );
            &&& hash.len() == 0 ==> served(request, world) == (Some(nothing), world)
            &&& is_plain(hash) && !world.files.contains_key(at) ==> served(request, world) == (
                Some(nothing),
                world,
            )
            &&& is_plain(hash) && world.files.contains_key(at) && world.files[at].len() <= u64::MAX
                ==> {
                &&& served(request, world).1 == world
                &&& served(request, world).0 matches Some(SessionView::Done(reply))
                &&& reply.status == 200
                &&& reply.headers == seq![
                    ("Content-Type"@, media),
                    ("Content-Length"@, reply.headers[1].1),
                    ("Docker-Content-Digest"@, "sha256:"@ + hash),
                    ("Docker-Distribution-Api-Version"@, "registry/2.0"@),
                ]
                &&& tells(reply.headers[1].1, world.files[at].len())
                &&& reply.body == Body::<Seq<char>>::Empty
            }
        }),
{
    let (hash, media) = probed(index, name, reference);
    let size = world.files[Location::Blob(hash)].len() as u64;
    index_is_read(world);
    probe_reply_holds(hash, media, size);
    reveal_with_fuel(run, 3);
}

/// An index that is not there, or is no text, describes nothing; one that is no JSON is told so.
pub proof fn unusable_index_describes_nothing(world: World, name: Seq<char>, reference: Seq<char>)
    ensures
        !world.files.contains_key(Location::Index) || !valid_utf8(world.files[Location::Index])
            ==> served(SessionView::Pull(Pull::ProbedIndex { name, reference }), world) == (
            Some(
                SessionView::Done(
                    (ReplyView { status: 404, headers: Seq::empty(), body: Body::Empty }),
                ),
            ),
            world,
        ),
        world.files.contains_key(Location::Index) && valid_utf8(world.files[Location::Index])
            && parsed(world.files[Location::Index]) is None ==> served(
            SessionView::Pull(Pull::ProbedIndex { name, reference }),
            world,
        ) == (
            Some(
                SessionView::Done(
                    (ReplyView { status: 500, headers: Seq::empty(), body: Body::Empty }),
                ),
            ),
            world,
        ),
{
    if world.files.contains_key(Location::Index) && valid_utf8(world.files[Location::Index]) {
        index_is_read(world);
    }
    reveal_with_fuel(run, 2);
}

/// An image is sent as it lies in the file that the index leads to, with the media type that it names
/// itself, or the usual one where it names none, its size in full, and its digest.
pub proof fn image_is_sent_with_its_own_type(
    world: World,
    name: Seq<char>,
    reference: Seq<char>,
    index: JsonView,
    manifest: JsonView,
)
    requires
        world.files.contains_key(Location::Index),
        valid_utf8(world.files[Location::Index]),
        parsed(world.files[Location::Index]) == Some(index),
        can_pull(index, name, reference),
        is_plain(pulled_hash(index, name, reference)),
        ({
            let at = Location::Blob(pulled_hash(index, name, reference));
            &&& world.files.contains_key(at)
            &&& valid_utf8(world.files[at])
            &&& parsed(world.files[at]) == Some(manifest)
            &&& world.files[at].len() <= u64::MAX
        }),
    ensures
        ({
            let hash = pulled_hash(index, name, reference);
            let at = Location::Blob(hash);
            let request = SessionView::Pull(Pull::ImageIndex { name, reference });
            &&& served(request, world).1 == World { opened: Some(at), ..world }
            &&& served(request, world).0 matches Some(SessionView::Done(reply))
            &&& reply.status == 200
            &&& reply.headers == seq![
                ("Content-Type"@, reply.headers[0].1),
                ("Content-Length"@, reply.headers[1].1),
                ("Docker-Content-Digest"@, "sha256:"@ + hash),
                ("Etag"@, "sha256:"@ + hash),
                ("Docker-Distribution-Api-Version"@, "registry/2.0"@),
            ]
            &&& (manifest.member("mediaType"@) matches JsonView::Text(text) ==> reply.headers[0].1
                == text)
            &&& (!(manifest.member("mediaType"@) is Text) ==> reply.headers[0].1
                == "application/vnd.oci.image.manifest.v1+json"@)
            &&& tells(reply.headers[1].1, world.files[at].len())
            &&& reply.body == Body::<Seq<char>>::OpenedFile
        }),
{
    let hash = pulled_hash(index, name, reference);
    let content = world.files[Location::Blob(hash)];
    index_is_read(world);
    decode_utf8_encode_utf8(content);
    manifest_reply_holds(hash, media_type(manifest), content.len() as u64);
    reveal_with_fuel(run, 5);
}

/// An image that the index does not have is not found; neither is one whose manifest is not there, or
/// is no text; and of one whose manifest is no JSON that is said. Nothing changes.
pub proof fn image_that_cannot_be_sent(
    world: World,
    name: Seq<char>,
    reference: Seq<char>,
    index: JsonView,
)
    requires
        world.files.contains_key(Location::Index),
        valid_utf8(world.files[Location::Index]),
        parsed(world.files[Location::Index]) == Some(index),
    ensures
        ({
            let hash = pulled_hash(index, name, reference);
            let at = Location::Blob(hash);
            let request = SessionView::Pull(Pull::ImageIndex { name, reference });
            let nothing = SessionView::Done(
                (ReplyView {
                    status: 404,
                    headers: Seq::empty(),
                    body: Body::Text("Not Found"@),
                }),
            );
            &&& !can_pull(index, name, reference) ==> served(request, world) == (
                None::<SessionView>,
                world,
            )
            &&& can_pull(index, name, reference) && hash.len() == 0 ==> served(request, world) == (
                Some(nothing),
                world,
            )
            &&& can_pull(index, name, reference) && is_plain(hash) && (!world.files.contains_key(at)
                || !valid_utf8(world.files[at])) ==> served(request, world) == (
                Some(nothing),
                world,
            )
            &&& can_pull(index, name, reference) && is_plain(hash) && world.files.contains_key(at)
                && valid_utf8(world.files[at]) && parsed(world.files[at]) is None ==> served(
                request,
                world,
            ) == (
                Some(
                    SessionView::Done(
                        (ReplyView {
                            status: 500,
                            headers: Seq::empty(),
                            body: Body::Text("Invalid manifest format"@),
                        }),
                    ),
                ),
                world,
            )
        }),
{
    let at = Location::Blob(pulled_hash(index, name, reference));
    index_is_read(world);
    if world.files.contains_key(at) && valid_utf8(world.files[at]) {
        decode_utf8_encode_utf8(world.files[at]);
    }
    reveal_with_fuel(run, 3);
}

/// A request for an image is dropped where the index is not there, or no text, or no JSON.
pub proof fn unusable_index_drops_pulls(world: World, name: Seq<char>, reference: Seq<char>)
    requires
        world.files.contains_key(Location::Index) && valid_utf8(world.files[Location::Index])
            ==> parsed(world.files[Location::Index]) is None,
    ensures
        served(SessionView::Pull(Pull::ImageIndex { name, reference }), world) == (
            None::<SessionView>,
            world,
        ),
{
    if world.files.contains_key(Location::Index) && valid_utf8(world.files[Location::Index]) {
        index_is_read(world);
    }
    reveal_with_fuel(run, 2);
}

/// A push into an index that takes no entries is dropped: the manifest is stored under its hash, and
/// nothing else changes.
pub proof fn push_into_unusable_index_is_dropped(world: World, name: Seq<char>, reference: Seq<char>)
    requires
        !can_push(found_index(world)),
    ensures
        served(SessionView::Push(Push::Manifest { name, reference }), world) == (
            None::<SessionView>,
            World {
                files: world.files.insert(Location::Blob(hash_of(world.body)), world.body),
                ..world
            },
        ),
{
    let stored = World {
        files: world.files.insert(Location::Blob(hash_of(world.body)), world.body),
        ..world
    };
    hash_is_plain(world.body);
    assert(outcome(stored, Action::ReadText(Location::Index)) == outcome(
        world,
        Action::ReadText(Location::Index),
    ));
    reveal_with_fuel(run, 6);
}

/// What becomes of a request for an image or a blob where a file cannot be read, opened or measured.
pub proof fn failed_pulls(
    name: Seq<char>,
    reference: Seq<char>,
    hash: Seq<char>,
    media_type: Seq<char>,
    reason: Seq<char>,
)
    ensures
        ({
            let nothing = Some(
                SessionView::Done(
                    (ReplyView { status: 404, headers: Seq::empty(), body: Body::Empty }),
                ),
            );
            let unopened = Some(
                SessionView::Done(
                    (ReplyView {
                        status: 404,
                        headers: Seq::empty(),
                        body: Body::Text("File not found: "@ + reason),
                    }),
                ),
            );
            &&& (Pull::ImageIndex { name, reference }).after(Event::Text(None)) is None
            &&& (Pull::Manifest { hash }).after(Event::Text(None)) == Some(
                SessionView::Done(
                    (ReplyView {
                        status: 404,
                        headers: Seq::empty(),
                        body: Body::Text("Not Found"@),
                    }),
                ),
            )
            &&& (Pull::ManifestFile { hash, media_type }).after(Event::Opened(Err(reason)))
                == unopened
            &&& (Pull::BlobFile { hash }).after(Event::Opened(Err(reason))) == unopened
            &&& (Pull::ManifestSize { hash, media_type }).after(Event::Size(None)) == Some(
                SessionView::Done(
                    (ReplyView {
                        status: 500,
                        headers: Seq::empty(),
                        body: Body::Text("Failed to get file metadata"@),
                    }),
                ),
            )
            &&& (Pull::ProbedIndex { name, reference }).after(Event::Text(None)) == nothing
            &&& (Pull::ProbedSize { hash, media_type }).after(Event::Size(None)) == nothing
            &&& (Pull::BlobSize { hash }).after(Event::Size(None)) == nothing
        }),
{
}

/// The reply that something failed on the way.
pub open spec fn failure(status: u16, text: Seq<char>) -> Option<SessionView> {
    Some(
        SessionView::Done(
            (ReplyView { status, headers: Seq::empty(), body: Body::Text(text) }),
        ),
    )
}

/// What becomes of a request that sends a manifest where something cannot be read or written.
pub proof fn failed_pushes(
    name: Seq<char>,
    reference: Seq<char>,
    manifest: Seq<u8>,
    hash: Seq<char>,
    index: Seq<char>,
)
    ensures
        (Push::Manifest { name, reference }).after(Event::Body(None)) == failure(
            400,
            "Failed to read body"@,
        ),
        (Push::Dir { name, reference, manifest, hash }).after(Event::Done(false)) == failure(
            500,
            "Failed to create directory"@,
        ),
        (Push::Blob { name, reference, manifest, hash }).after(Event::Done(false)) == failure(
            500,
            "Failed to write manifest"@,
        ),
        (Push::<Seq<char>, Seq<u8>>::Entry { name, hash, index }).after(Event::Done(false))
            == failure(500, "Failed to update index"@),
{
}

/// What becomes of a request that sends a blob, or closes an upload, where something cannot be read
/// or written: chunks that cannot be read give way to what was sent last, and that they cannot be
/// cleared away makes no difference.
pub proof fn failed_uploads(
    id: Seq<char>,
    query: Seq<char>,
    body: Seq<u8>,
    hash: Seq<char>,
    cleared: bool,
)
    ensures
        (Upload::<Seq<char>, Seq<u8>>::LastBody { id, query }).after(Event::Body(None)) == failure(
            400,
            "Failed to read body"@,
        ),
        (Upload::Content { id, query, body }).after(Event::Bytes(None)) == (Upload::Chunks {
            id,
            query,
            body,
        }).after(Event::Seen(false)),
        (Upload::Dir { id, blob: body, hash }).after(Event::Done(false)) == failure(
            500,
            "Failed to create directory"@,
        ),
        (Upload::Blob { id, blob: body, hash }).after(Event::Done(false)) == failure(
            500,
            "Failed to write blob"@,
        ),
        (Upload::<Seq<char>, Seq<u8>>::Cleanup { id, hash }).after(Event::Done(cleared)) == Some(
            SessionView::Done(stored_reply(hash)),
        ),
{
}

/// What becomes of a request that sends a chunk where something cannot be read or written: that the
/// size of what is there cannot be taken counts as nothing there.
pub proof fn failed_chunks(
    name: Seq<char>,
    id: Seq<char>,
    range: Option<Seq<char>>,
    chunk: Seq<u8>,
    before: usize,
    added: usize,
)
    ensures
        (Upload::<Seq<char>, Seq<u8>>::Chunk { name, id, range }).after(Event::Body(None))
            == failure(400, "Failed to read body"@),
        (Upload::ChunkDir { name, id, range, chunk }).after(Event::Done(false)) == failure(
            500,
            "Failed to create temp directory"@,
        ),
        (Upload::EarlierSize { name, id, range, chunk }).after(Event::Size(None)) == (
        Upload::Earlier { name, id, range, chunk }).after(Event::Seen(false)),
        (Upload::EarlierContent { name, id, chunk, before }).after(Event::Bytes(None)) == failure(
            500,
            "Failed to read existing temp file"@,
        ),
        (Upload::Grown { name, id, content: chunk, before, added }).after(Event::Done(false))
            == failure(500, "Failed to write temp file"@),
{
}

/// The place of an upload that is opened is the path it was asked for at, without the slashes at its
/// end, and the new id.
pub proof fn opened_reply_holds(path: Seq<char>, nanos: u128, pid: u32)
    ensures
        opened_reply(path, nanos, pid) == (ReplyView {
            status: 202,
            headers: seq![
                (
                    "Location"@,
                    "/v2/"@ + without_trailing_slashes(path) + "/"@ + upload_id(nanos, pid),
                ),
                ("Docker-Distribution-Api-Version"@, "registry/2.0"@),
            ],
            body: Body::Empty,
        }),
{
    assert(opened_reply(path, nanos, pid).headers =~= seq![
        ("Location"@, "/v2/"@ + without_trailing_slashes(path) + "/"@ + upload_id(nanos, pid)),
        ("Docker-Distribution-Api-Version"@, "registry/2.0"@),
    ]);
}

/// Whatever is found of an upload, the chunk is put behind it, and the reply counts what was said to
/// be there and what was added.
pub proof fn chunk_goes_behind_what_is_found(
    name: Seq<char>,
    id: Seq<char>,
    range: Option<Seq<char>>,
    chunk: Seq<u8>,
    before: usize,
    found: Seq<u8>,
    added: usize,
)
    requires
        chunk.len() <= usize::MAX,
    ensures
        (Upload::EarlierContent { name, id, chunk, before }).after(Event::Bytes(Some(found)))
            == Some(
            SessionView::Upload(
                Upload::Grown {
                    name,
                    id,
                    content: found + chunk,
                    before,
                    added: chunk.len() as usize,
                },
            ),
        ),
        (Upload::Grown { name, id, content: found, before, added }).after(Event::Done(true))
            == Some(SessionView::Done(grown_reply(name, id, before + added))),
        (Upload::EarlierSize { name, id, range, chunk }).after(Event::Size(Some(before as u64)))
            == Some(growing(name, id, range, chunk, before)),
        (Upload::Earlier { name, id, range, chunk }).after(Event::Seen(false)) == Some(
            growing(name, id, range, chunk, 0),
        ),
{
}

/// What is written is written where it belongs, and the directory is made before: a manifest and a
/// blob under their hash, the index in its file, and chunks under the id of their upload.
pub proof fn directories_are_made_before_files(
    name: Seq<char>,
    reference: Seq<char>,
    id: Seq<char>,
    hash: Seq<char>,
    content: Seq<u8>,
    text: Seq<char>,
    range: Option<Seq<char>>,
    before: usize,
    added: usize,
)
    ensures
        (Push::Dir { name, reference, manifest: content, hash }).action() == Action::<
            Seq<char>,
            Seq<u8>,
        >::MakeDir(Location::Blobs),
        (Push::Dir { name, reference, manifest: content, hash }).after(Event::Done(true)) == Some(
            SessionView::Push(Push::Blob { name, reference, manifest: content, hash }),
        ),
        (Push::Blob { name, reference, manifest: content, hash }).action() == Action::Write(
            Location::Blob(hash),
            content,
        ),
        (Push::<Seq<char>, Seq<u8>>::Entry { name, hash, index: text }).action() == Action::Write(
            Location::<Seq<char>>::Index,
            encode_utf8(text),
        ),
        (Upload::Dir { id, blob: content, hash }).action() == Action::<
            Seq<char>,
            Seq<u8>,
        >::MakeDir(Location::Blobs),
        (Upload::Dir { id, blob: content, hash }).after(Event::Done(true)) == Some(
            SessionView::Upload(Upload::Blob { id, blob: content, hash }),
        ),
        (Upload::Blob { id, blob: content, hash }).action() == Action::Write(
            Location::Blob(hash),
            content,
        ),
        (Upload::ChunkDir { name, id, range, chunk: content }).action() == Action::<
            Seq<char>,
            Seq<u8>,
        >::MakeDir(Location::Uploads),
        (Upload::ChunkDir { name, id, range, chunk: content }).after(Event::Done(true)) == Some(
            SessionView::Upload(Upload::Earlier { name, id, range, chunk: content }),
        ),
        (Upload::Grown { name, id, content, before, added }).action() == Action::Write(
            Location::Upload(id),
            content,
        ),
{
}

/// A request reads what it goes on by: the index and the manifests to find and type them, the chunks
/// of its own upload, and what was sent with it.
pub proof fn requests_read_what_they_need(
    name: Seq<char>,
    reference: Seq<char>,
    id: Seq<char>,
    hash: Seq<char>,
    media_type: Seq<char>,
    query: Seq<char>,
    content: Seq<u8>,
    range: Option<Seq<char>>,
    before: usize,
)
    ensures
        (Pull::ImageIndex { name, reference }).action() == Action::<Seq<char>, Seq<u8>>::ReadText(
            Location::Index,
        ),
        (Pull::ProbedIndex { name, reference }).action() == Action::<Seq<char>, Seq<u8>>::ReadText(
            Location::Index,
        ),
        (Pull::Manifest { hash }).action() == Action::<Seq<char>, Seq<u8>>::ReadText(
            Location::Blob(hash),
        ),
        (Pull::ManifestFile { hash, media_type }).action() == Action::<Seq<char>, Seq<u8>>::Open(
            Location::Blob(hash),
        ),
        (Pull::ManifestSize { hash, media_type }).action() == Action::<
            Seq<char>,
            Seq<u8>,
        >::MeasureOpened,
        (Pull::BlobFile { hash }).action() == Action::<Seq<char>, Seq<u8>>::Open(
            Location::Blob(hash),
        ),
        (Pull::ProbedSize { hash, media_type }).action() == Action::<Seq<char>, Seq<u8>>::Measure(
            Location::Blob(hash),
        ),
        (Pull::BlobSize { hash }).action() == Action::<Seq<char>, Seq<u8>>::Measure(
            Location::Blob(hash),
        ),
        (Push::<Seq<char>, Seq<u8>>::Manifest { name, reference }).action() == Action::<
            Seq<char>,
            Seq<u8>,
        >::ReadBody,
        (Push::Index { name, reference, manifest: content, hash }).action() == Action::<
            Seq<char>,
            Seq<u8>,
        >::ReadText(Location::Index),
        (Upload::<Seq<char>, Seq<u8>>::LastBody { id, query }).action() == Action::<
            Seq<char>,
            Seq<u8>,
        >::ReadBody,
        (Upload::<Seq<char>, Seq<u8>>::Chunk { name, id, range }).action() == Action::<
            Seq<char>,
            Seq<u8>,
        >::ReadBody,
        (Upload::Chunks { id, query, body: content }).action() == Action::<
            Seq<char>,
            Seq<u8>,
        >::Look(Location::Upload(id)),
        (Upload::Content { id, query, body: content }).action() == Action::<
            Seq<char>,
            Seq<u8>,
        >::ReadBytes(Location::Upload(id)),
        (Upload::Earlier { name, id, range, chunk: content }).action() == Action::<
            Seq<char>,
            Seq<u8>,
        >::Look(Location::Upload(id)),
        (Upload::EarlierSize { name, id, range, chunk: content }).action() == Action::<
            Seq<char>,
            Seq<u8>,
        >::Measure(Location::Upload(id)),
        (Upload::EarlierContent { name, id, chunk: content, before }).action() == Action::<
            Seq<char>,
            Seq<u8>,
        >::ReadBytes(Location::Upload(id)),
        (Upload::<Seq<char>, Seq<u8>>::Leftover { id, hash }).action() == Action::<
            Seq<char>,
            Seq<u8>,
        >::Look(Location::Upload(id)),
        (Upload::<Seq<char>, Seq<u8>>::Cleanup { id, hash }).action() == Action::<
            Seq<char>,
            Seq<u8>,
        >::Delete(Location::Upload(id)),
{
}

/// How a request for an image goes on: from the index to the manifest that it leads to, from that to
/// its media type, and on to the reply with all of these.
pub proof fn pulls_go_on(
    name: Seq<char>,
    reference: Seq<char>,
    hash: Seq<char>,
    media: Seq<char>,
    text: Seq<char>,
    json: JsonView,
    size: u64,
)
    ensures
        parsed(encode_utf8(text)) == Some(json) && can_pull(json, name, reference) && pulled_hash(
            json,
            name,
            reference,
        ).len() > 0 ==> (Pull::ImageIndex { name, reference }).after(Event::Text(Some(text)))
            == Some(
            SessionView::Pull(Pull::Manifest { hash: pulled_hash(json, name, reference) }),
        ),
        parsed(encode_utf8(text)) == Some(json) ==> ((Pull::Manifest { hash }).after(
            Event::Text(Some(text)),
        ) matches Some(SessionView::Pull(Pull::ManifestFile { hash: next, media_type: found }))
            && next == hash && (json.member("mediaType"@) matches JsonView::Text(named) ==> found
            == named) && (!(json.member("mediaType"@) is Text) ==> found
            == "application/vnd.oci.image.manifest.v1+json"@)),
        (Pull::ManifestFile { hash, media_type: media }).after(Event::Opened(Ok(()))) == Some(
            SessionView::Pull(Pull::ManifestSize { hash, media_type: media }),
        ),
        (Pull::ManifestSize { hash, media_type: media }).after(Event::Size(Some(size))) == Some(
            SessionView::Done(manifest_reply(hash, media, size)),
        ),
        (Pull::BlobFile { hash }).after(Event::Opened(Ok(()))) == Some(
            SessionView::Done(blob_reply(hash)),
        ),
        parsed(encode_utf8(text)) == Some(json) && probed(json, name, reference).0.len() > 0 ==> (
        Pull::ProbedIndex { name, reference }).after(Event::Text(Some(text))) == Some(
            SessionView::Pull(
                Pull::ProbedSize {
                    hash: probed(json, name, reference).0,
                    media_type: probed(json, name, reference).1,
                },
            ),
        ),
        (Pull::ProbedSize { hash, media_type: media }).after(Event::Size(Some(size))) == Some(
            SessionView::Done(probe_reply(hash, media, size)),
        ),
        (Pull::BlobSize { hash }).after(Event::Size(Some(size))) == Some(
            SessionView::Done(probe_reply(hash, "application/octet-stream"@, size)),
        ),
{
}

/// How a request that closes an upload goes on: with the chunks that were sent, or with what is sent
/// with it where there are none; and once the blob is stored, the chunks are cleared away.
pub proof fn closings_go_on(
    id: Seq<char>,
    query: Seq<char>,
    body: Seq<u8>,
    chunks: Seq<u8>,
    hash: Seq<char>,
)
    ensures
        (Upload::<Seq<char>, Seq<u8>>::LastBody { id, query }).after(Event::Body(Some(body)))
            == Some(SessionView::Upload(Upload::Chunks { id, query, body })),
        (Upload::Chunks { id, query, body }).after(Event::Seen(true)) == Some(
            SessionView::Upload(Upload::Content { id, query, body }),
        ),
        (Upload::Chunks { id, query, body }).after(Event::Seen(false)) == Some(
            closing(id, query, body),
        ),
        (Upload::Content { id, query, body }).after(Event::Bytes(Some(chunks))) == Some(
            closing(id, query, chunks),
        ),
        (Upload::Blob { id, blob: body, hash }).after(Event::Done(true)) == Some(
            SessionView::Upload(Upload::Leftover { id, hash }),
        ),
        (Upload::<Seq<char>, Seq<u8>>::Leftover { id, hash }).after(Event::Seen(true)) == Some(
            SessionView::Upload(Upload::Cleanup { id, hash }),
        ),
        (Upload::<Seq<char>, Seq<u8>>::Leftover { id, hash }).after(Event::Seen(false)) == Some(
            SessionView::Done(stored_reply(hash)),
        ),
{
}

/// How a request that opens an upload, or sends a chunk, goes on.
pub proof fn uploads_go_on(
    path: Seq<char>,
    name: Seq<char>,
    id: Seq<char>,
    range: Option<Seq<char>>,
    chunk: Seq<u8>,
    nanos: u128,
    pid: u32,
)
    ensures
        (Upload::<Seq<char>, Seq<u8>>::Stamp { path }).action() == Action::<
            Seq<char>,
            Seq<u8>,
        >::TakeStamp,
        (Upload::<Seq<char>, Seq<u8>>::Stamp { path }).after(Event::Stamp { nanos, pid }) == Some(
            SessionView::Done(opened_reply(path, nanos, pid)),
        ),
        (Upload::<Seq<char>, Seq<u8>>::Chunk { name, id, range }).after(Event::Body(Some(chunk)))
            == Some(SessionView::Upload(Upload::ChunkDir { name, id, range, chunk })),
        (Upload::Earlier { name, id, range, chunk }).after(Event::Seen(true)) == Some(
            SessionView::Upload(Upload::EarlierSize { name, id, range, chunk }),
        ),
{
}

} // verus!
