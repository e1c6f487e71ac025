//! What requests come to, one after another: what was sent is what is got back.
//!
//! Where the id of an upload, or a hash from the index, comes from outside, it is a plain name: one
//! such as `../index.json` leads to a file of another kind, and of that nothing is said here. The
//! ids that the registry gives are plain, and so are the hashes that it computes.
use crate::digest::{digest_is_plain, digest_of, hash_of, DIGEST_PREFIX};
use crate::index::{
    all_named, base_name, can_pull, can_push, digest_is_described_by_its_first_entry,
    entered_image_can_be_pulled, entered_image_is_found, entry_digest, entry_is_listed,
    image_has_one_entry, image_name, listed, new_entry, new_entry_says, other_images_are_kept,
    others, others_are_entries, probed, pulled_hash, with_entry,
};
use crate::json::{
    alike, depth_limit, has_integers_only, integers_are_kept, is_kept, parsed, rendered, reread,
    JsonView,
};
use crate::kept::{
    entered_index_has_integers_only, entering_keeps_alike, entering_twice_is_once,
    like_indexes_lead_alike, new_entry_is_shallow,
};
use crate::pull::{blob_reply, get_started, head_started, manifest_reply, probe_reply, Pull};
use crate::push::{manifest_type, pushed_index, pushed_reply, stored_index, Push};
use crate::reply::BAD_REQUEST;
use crate::routes::{
    blob_path_is_found, is_without, manifest_path_is_found, range_bounds, range_reads_back,
    upload_is_no_manifest, upload_path_is_found,
};
use crate::session::SessionView;
use crate::storage::{is_plain, Action, Event, Location};
use crate::text::{contains_text, decimal, has_prefix};
use crate::upload::{
    grown_reply, named_digest, out_of_order_reply, patch_started, put_started,
    stored_reply, Upload,
};
use crate::world::{hash_is_plain, outcome, run, served, World};
use vstd::prelude::*;
use vstd::utf8::{
    decode_utf8, decode_utf8_encode_utf8, encode_utf8, encode_utf8_decode_utf8,
    encode_utf8_valid_utf8, valid_utf8,
};

verus! {

/// Requests for an image begin where its name and reference are: to send the manifest, to describe
/// it, and to take one.
pub proof fn manifest_requests_begin(name: Seq<char>, reference: Seq<char>, query: Seq<char>)
    requires
        name.len() > 0,
        is_without(name, '\n'),
        reference.len() > 0,
        is_without(reference, '/'),
        is_without(reference, '\n'),
    ensures
        get_started(name + "/manifests/"@ + reference) == Some(
            SessionView::Pull(Pull::ImageIndex { name, reference }),
        ),
        head_started(name + "/manifests/"@ + reference) == Some(
            SessionView::Pull(Pull::ProbedIndex { name, reference }),
        ),
        put_started(name + "/manifests/"@ + reference, query) == SessionView::Push(
            Push::Manifest { name, reference },
        ),
{
    manifest_path_is_found(name, reference);
}

/// Requests for a blob begin where its digest is: to send the blob, and to describe it. The name does
/// not hold `/manifests/`, nor does with a slash behind it.
pub proof fn blob_requests_begin(name: Seq<char>, hash: Seq<char>)
    requires
        name.len() > 0,
        is_without(name, '\n'),
        !contains_text(name + "/"@, "/manifests/"@),
        is_without(hash, '/'),
        is_without(hash, '\n'),
    ensures
        get_started(name + "/blobs/"@ + (DIGEST_PREFIX@ + hash)) == Some(
            SessionView::Pull(Pull::BlobFile { hash }),
        ),
        head_started(name + "/blobs/"@ + (DIGEST_PREFIX@ + hash)) == Some(
            SessionView::Pull(Pull::BlobSize { hash }),
        ),
{
    let digest = DIGEST_PREFIX@ + hash;
    reveal_strlit("sha256:");
    assert(digest.subrange(0, 7) =~= DIGEST_PREFIX@);
    assert(digest.skip(7) =~= hash);
    blob_path_is_found(name, digest);
}

/// Requests for an upload begin where its name and id are: to take a chunk, and to close it. The name
/// does not hold `/manifests/`, nor does with a slash behind it.
pub proof fn upload_requests_begin(
    name: Seq<char>,
    id: Seq<char>,
    range: Option<Seq<char>>,
    query: Seq<char>,
)
    requires
        name.len() > 0,
        is_without(name, '\n'),
        !contains_text(name + "/"@, "/manifests/"@),
        id.len() > 0,
        is_without(id, '/'),
        is_without(id, '\n'),
    ensures
        patch_started(name + "/blobs/uploads/"@ + id, range) == SessionView::Upload(
            Upload::Chunk { name, id, range },
        ),
        put_started(name + "/blobs/uploads/"@ + id, query) == SessionView::Upload(
            Upload::LastBody { id, query },
        ),
{
    upload_path_is_found(name, id);
    upload_is_no_manifest(name, id);
}

/// The index that a push finds.
pub open spec fn found_index(world: World) -> JsonView {
    stored_index(outcome(world, Action::ReadText(Location::Index))->Text_0)
}

/// The index that a push of what was sent leaves.
pub open spec fn left_index(world: World, name: Seq<char>, reference: Seq<char>) -> JsonView {
    pushed_index(found_index(world), name, reference, world.body, hash_of(world.body))
}

/// The files that a push leaves: the manifest under its hash, the index with the new entry, and
/// what was there before.
pub open spec fn left_files(world: World, name: Seq<char>, reference: Seq<char>) -> Map<
    Location<Seq<char>>,
    Seq<u8>,
> {
    world.files.insert(Location::Blob(hash_of(world.body)), world.body).insert(
        Location::Index,
        encode_utf8(rendered(left_index(world, name, reference))),
    )
}

/// A push stores the manifest under its hash, enters it for its image, and leaves every other file
/// as it was.
pub proof fn push_stores_the_manifest(world: World, name: Seq<char>, reference: Seq<char>)
    requires
        can_push(found_index(world)),
    ensures
        served(SessionView::Push(Push::Manifest { name, reference }), world) == (
            Some(SessionView::Done(pushed_reply(name, hash_of(world.body)))),
            World { files: left_files(world, name, reference), ..world },
        ),
{
    let manifest = world.body;
    let hash = hash_of(manifest);
    let stored = World { files: world.files.insert(Location::Blob(hash), manifest), ..world };
    assert(outcome(stored, Action::ReadText(Location::Index)) == outcome(
        world,
        Action::ReadText(Location::Index),
    ));
    hash_is_plain(manifest);
    reveal_with_fuel(run, 6);
}

/// What is read of the index that a push left.
proof fn left_index_is_read(world: World, name: Seq<char>, reference: Seq<char>)
    ensures
        ({
            let left = World { files: left_files(world, name, reference), ..world };
            outcome(left, Action::ReadText(Location::Index)) == Event::<Seq<char>, Seq<u8>>::Text(
                Some(rendered(left_index(world, name, reference))),
            )
        }),
{
    let text = rendered(left_index(world, name, reference));
    encode_utf8_valid_utf8(text);
    encode_utf8_decode_utf8(text);
}

/// A request for an image is answered with the manifest that its name or digest leads to, as it lies
/// in its file, and changes nothing.
pub proof fn pull_sends_the_manifest(
    world: World,
    name: Seq<char>,
    reference: Seq<char>,
    text: Seq<char>,
    index: JsonView,
)
    requires
        outcome(world, Action::ReadText(Location::Index)) == Event::<Seq<char>, Seq<u8>>::Text(
            Some(text),
        ),
        parsed(encode_utf8(text)) == Some(index),
        can_pull(index, name, reference),
        is_plain(pulled_hash(index, name, reference)),
        world.files.contains_key(Location::Blob(pulled_hash(index, name, reference))),
        ({
            let manifest = world.files[Location::Blob(pulled_hash(index, name, reference))];
            valid_utf8(manifest) && parsed(manifest) is Some
        }),
    ensures
        ({
            let hash = pulled_hash(index, name, reference);
            let manifest = world.files[Location::Blob(hash)];
            served(SessionView::Pull(Pull::ImageIndex { name, reference }), world) == (
                Some(
                    SessionView::Done(
                        manifest_reply(hash, manifest_type(manifest), manifest.len() as u64),
                    ),
                ),
                World { opened: Some(Location::Blob(hash)), ..world },
            )
        }),
{
    let manifest = world.files[Location::Blob(pulled_hash(index, name, reference))];
    decode_utf8_encode_utf8(manifest);
    reveal_with_fuel(run, 5);
}

/// What was pushed is what is pulled: after a push of a manifest for an image, a request for that
/// image, by the name and reference that it was pushed for or under any name by the digest of the
/// manifest, is answered with the manifest, its media type, its size and its digest, and changes
/// nothing.
///
/// The manifest is JSON, in UTF-8. The index has a list of entries that name their images. That the
/// index which the push leaves is kept as it is written is what a step of the push makes sure of.
pub proof fn pushed_manifest_is_pulled(
    world: World,
    name: Seq<char>,
    reference: Seq<char>,
    asked_name: Seq<char>,
    asked: Seq<char>,
)
    requires
        all_named(found_index(world)),
        is_kept(left_index(world, name, reference)),
        valid_utf8(world.body),
        parsed(world.body) is Some,
        world.body.len() <= u64::MAX,
        asked == digest_of(world.body) || (asked_name == name && asked == reference && !has_prefix(
            reference,
            DIGEST_PREFIX@,
        )),
    ensures
        ({
            let manifest = world.body;
            let hash = hash_of(manifest);
            let (pushed, left) = served(
                SessionView::Push(Push::Manifest { name, reference }),
                world,
            );
            let (pulled, after) = served(
                SessionView::Pull(Pull::ImageIndex { name: asked_name, reference: asked }),
                left,
            );
            &&& pushed == Some(SessionView::Done(pushed_reply(name, hash)))
            &&& pulled == Some(
                SessionView::Done(
                    manifest_reply(hash, manifest_type(manifest), manifest.len() as u64),
                ),
            )
            &&& after.opened == Some(Location::Blob(hash))
            &&& after.files[Location::Blob(hash)] == manifest
            &&& after.files == left.files
        }),
{
    let manifest = world.body;
    let hash = hash_of(manifest);
    let left = World { files: left_files(world, name, reference), ..world };
    let index = left_index(world, name, reference);
    push_stores_the_manifest(world, name, reference);
    left_index_is_read(world, name, reference);
    digest_is_plain(manifest);
    hash_is_plain(manifest);
    entered_image_can_be_pulled(
        found_index(world),
        name,
        reference,
        manifest_type(manifest),
        hash,
        manifest.len() as int,
    );
    if asked != digest_of(manifest) {
        entered_image_is_found(
            found_index(world),
            name,
            reference,
            manifest_type(manifest),
            hash,
            manifest.len() as int,
        );
    }
    assert(left.files[Location::Blob(hash)] == manifest);
    like_indexes_lead_alike(reread(index), index, asked_name, asked);
    pull_sends_the_manifest(left, asked_name, asked, rendered(index), reread(index));
}

/// What was pushed is what is described: after a push of a manifest for an image, a request to
/// describe that image is answered with the media type, the size and the digest of the manifest, and
/// changes nothing.
pub proof fn pushed_manifest_is_described(world: World, name: Seq<char>, reference: Seq<char>)
    requires
        listed(found_index(world)) is Some,
        is_kept(left_index(world, name, reference)),
        world.body.len() <= u64::MAX,
        !has_prefix(reference, DIGEST_PREFIX@),
    ensures
        ({
            let manifest = world.body;
            let hash = hash_of(manifest);
            let (_, left) = served(SessionView::Push(Push::Manifest { name, reference }), world);
            served(SessionView::Pull(Pull::ProbedIndex { name, reference }), left) == (
                Some(
                    SessionView::Done(
                        probe_reply(hash, manifest_type(manifest), manifest.len() as u64),
                    ),
                ),
                left,
            )
        }),
{
    let manifest = world.body;
    let hash = hash_of(manifest);
    push_stores_the_manifest(world, name, reference);
    left_index_is_read(world, name, reference);
    digest_is_plain(manifest);
    hash_is_plain(manifest);
    entered_image_is_found(
        found_index(world),
        name,
        reference,
        manifest_type(manifest),
        hash,
        manifest.len() as int,
    );
    like_indexes_lead_alike(
        reread(left_index(world, name, reference)),
        left_index(world, name, reference),
        name,
        reference,
    );
    reveal_with_fuel(run, 3);
}

/// A pushed manifest is described also under any name by its digest: with its size, its digest, and
/// the media type that the index has for that.
pub proof fn pushed_digest_is_described(
    world: World,
    name: Seq<char>,
    reference: Seq<char>,
    asked_name: Seq<char>,
)
    requires
        can_push(found_index(world)),
        is_kept(left_index(world, name, reference)),
        world.body.len() <= u64::MAX,
    ensures
        ({
            let manifest = world.body;
            let digest = digest_of(manifest);
            let (_, media) = probed(left_index(world, name, reference), asked_name, digest);
            let (_, left) = served(SessionView::Push(Push::Manifest { name, reference }), world);
            served(
                SessionView::Pull(Pull::ProbedIndex { name: asked_name, reference: digest }),
                left,
            ) == (
                Some(
                    SessionView::Done(
                        probe_reply(hash_of(manifest), media, manifest.len() as u64),
                    ),
                ),
                left,
            )
        }),
{
    let manifest = world.body;
    push_stores_the_manifest(world, name, reference);
    left_index_is_read(world, name, reference);
    digest_is_plain(manifest);
    hash_is_plain(manifest);
    like_indexes_lead_alike(
        reread(left_index(world, name, reference)),
        left_index(world, name, reference),
        asked_name,
        digest_of(manifest),
    );
    reveal_with_fuel(run, 3);
}

/// A push leaves the other images as they are: a request for one of them is answered as before.
///
/// The manifest of the other image is another file than the pushed one, or has the same content.
pub proof fn other_images_are_pulled_as_before(
    world: World,
    name: Seq<char>,
    reference: Seq<char>,
    text: Seq<char>,
    other_name: Seq<char>,
    other: Seq<char>,
)
    requires
        outcome(world, Action::ReadText(Location::Index)) == Event::<Seq<char>, Seq<u8>>::Text(
            Some(text),
        ),
        parsed(encode_utf8(text)) == Some(found_index(world)),
        can_push(found_index(world)),
        is_kept(left_index(world, name, reference)),
        image_name(other_name, other) != image_name(name, reference),
        !has_prefix(other, DIGEST_PREFIX@),
        can_pull(found_index(world), other_name, other),
        pulled_hash(found_index(world), other_name, other).len() > 0 ==> is_plain(
            pulled_hash(found_index(world), other_name, other),
        ),
        ({
            let at = Location::Blob(pulled_hash(found_index(world), other_name, other));
            at != Location::Blob(hash_of(world.body)) || (world.files.contains_key(at)
                && world.files[at] == world.body)
        }),
    ensures
        ({
            let at = Location::Blob(pulled_hash(found_index(world), other_name, other));
            let request = SessionView::Pull(
                Pull::ImageIndex { name: other_name, reference: other },
            );
            let (_, left) = served(SessionView::Push(Push::Manifest { name, reference }), world);
            &&& served(request, left).0 == served(request, world).0
            &&& served(request, left).1.opened == served(request, world).1.opened
            &&& left.files.contains_key(at) == world.files.contains_key(at)
            &&& left.files.contains_key(at) ==> left.files[at] == world.files[at]
        }),
{
    let manifest = world.body;
    let image = image_name(name, reference);
    let digest = DIGEST_PREFIX@ + hash_of(manifest);
    push_stores_the_manifest(world, name, reference);
    new_entry_says(manifest_type(manifest), digest, manifest.len() as int, image);
    left_index_is_read(world, name, reference);
    other_images_are_kept(
        found_index(world),
        image,
        new_entry(manifest_type(manifest), digest, manifest.len() as int, image),
        other_name,
        other,
    );
    like_indexes_lead_alike(
        reread(left_index(world, name, reference)),
        left_index(world, name, reference),
        other_name,
        other,
    );
    reveal_with_fuel(run, 5);
}

/// The entry that a push of what was sent makes.
pub open spec fn pushed_entry(world: World, name: Seq<char>, reference: Seq<char>) -> JsonView {
    new_entry(
        manifest_type(world.body),
        DIGEST_PREFIX@ + hash_of(world.body),
        world.body.len() as int,
        image_name(name, reference),
    )
}

/// To enter a manifest for an image twice comes to the same as to enter it once.
pub proof fn pushing_twice_is_once(
    index: JsonView,
    name: Seq<char>,
    reference: Seq<char>,
    manifest: Seq<u8>,
    hash: Seq<char>,
)
    ensures
        pushed_index(
            pushed_index(index, name, reference, manifest, hash),
            name,
            reference,
            manifest,
            hash,
        ) == pushed_index(index, name, reference, manifest, hash),
{
    let image = image_name(name, reference);
    let digest = DIGEST_PREFIX@ + hash;
    let size = manifest.len() as int;
    new_entry_says(manifest_type(manifest), digest, size, image);
    entering_twice_is_once(index, image, new_entry(manifest_type(manifest), digest, size, image));
}

/// A push made twice is answered as it was the first time, and leaves the index and every other file
/// as they were after that: the index as it was but for its numbers other than integers, which are
/// read and written once more, and just as it was where these read back as they were, or where it
/// has none.
pub proof fn repeated_push_changes_nothing(world: World, name: Seq<char>, reference: Seq<char>)
    requires
        can_push(found_index(world)),
        is_kept(left_index(world, name, reference)),
    ensures
        ({
            let request = SessionView::Push(Push::Manifest { name, reference });
            let (first, once) = served(request, world);
            let (second, twice) = served(request, once);
            &&& first == Some(SessionView::Done(pushed_reply(name, hash_of(world.body))))
            &&& second == first
            &&& twice.files.remove(Location::Index) == once.files.remove(Location::Index)
            &&& alike(
                left_index(once, name, reference),
                left_index(world, name, reference),
                depth_limit(),
            )
            &&& reread(left_index(world, name, reference)) == left_index(world, name, reference)
                ==> twice == once
            &&& has_integers_only(found_index(world), depth_limit()) ==> twice == once
        }),
{
    let image = image_name(name, reference);
    let entry = pushed_entry(world, name, reference);
    let left = left_index(world, name, reference);
    let once = World { files: left_files(world, name, reference), ..world };
    let hash = hash_of(world.body);
    push_stores_the_manifest(world, name, reference);
    left_index_is_read(world, name, reference);
    assert(found_index(once) == reread(left));
    like_indexes_lead_alike(reread(left), left, name, reference);
    push_stores_the_manifest(once, name, reference);
    pushing_twice_is_once(found_index(world), name, reference, world.body, hash);
    new_entry_is_shallow(
        manifest_type(world.body),
        DIGEST_PREFIX@ + hash,
        world.body.len() as int,
        image,
        (depth_limit() - 2) as nat,
    );
    entering_keeps_alike(reread(left), left, image, entry);
    let twice = left_files(once, name, reference);
    assert(twice.remove(Location::Index) =~= once.files.remove(Location::Index));
    if has_integers_only(found_index(world), depth_limit()) {
        entered_index_has_integers_only(
            found_index(world),
            manifest_type(world.body),
            DIGEST_PREFIX@ + hash,
            world.body.len() as int,
            image,
        );
        integers_are_kept(reread(left), left, depth_limit());
    }
    if reread(left) == left {
        assert(twice =~= once.files);
    }
}

/// The index has one entry for the image, and that has the digest.
pub open spec fn has_one_entry(index: JsonView, image: Seq<char>, digest: Seq<char>) -> bool {
    listed(index) matches Some(entries) && exists|at: int|
        0 <= at < entries.len() && base_name(#[trigger] entries[at]) == Some(image)
            && entry_digest(entries[at]) == Some(digest) && forall|i: int|
            0 <= i < entries.len() && base_name(#[trigger] entries[i]) == Some(image) ==> i == at
}

/// An index with an image entered has one entry for it.
proof fn entered_image_has_one_entry(
    index: JsonView,
    world: World,
    name: Seq<char>,
    reference: Seq<char>,
)
    requires
        listed(index) is Some,
    ensures
        has_one_entry(
            with_entry(index, image_name(name, reference), pushed_entry(world, name, reference)),
            image_name(name, reference),
            digest_of(world.body),
        ),
        listed(
            with_entry(index, image_name(name, reference), pushed_entry(world, name, reference)),
        ) is Some,
{
    let image = image_name(name, reference);
    let entry = pushed_entry(world, name, reference);
    new_entry_says(
        manifest_type(world.body),
        digest_of(world.body),
        world.body.len() as int,
        image,
    );
    image_has_one_entry(index, image, entry);
    let entries = listed(with_entry(index, image, entry))->0;
    entry_is_listed(index, image, entry);
    assert(entries[entries.len() - 1] == entry);
}

/// A second push for an image takes the place of the first: the index has one entry for the image,
/// with the digest of the second manifest. The first manifest is still stored, where their hashes
/// differ, and is sent to a request for its digest.
pub proof fn second_push_takes_over(
    world: World,
    name: Seq<char>,
    reference: Seq<char>,
    manifest: Seq<u8>,
)
    requires
        listed(found_index(world)) is Some,
        is_kept(left_index(world, name, reference)),
    ensures
        ({
            let request = SessionView::Push(Push::Manifest { name, reference });
            let (first, once) = served(request, world);
            let next = World { body: manifest, ..once };
            let (second, twice) = served(request, next);
            let earlier = hash_of(world.body);
            let (fetched, after) = served(
                SessionView::Pull(Pull::BlobFile { hash: earlier }),
                twice,
            );
            let index = left_index(next, name, reference);
            &&& first == Some(SessionView::Done(pushed_reply(name, earlier)))
            &&& second == Some(SessionView::Done(pushed_reply(name, hash_of(manifest))))
            &&& twice.files[Location::Index] == encode_utf8(rendered(index))
            &&& has_one_entry(index, image_name(name, reference), digest_of(manifest))
            &&& twice.files[Location::Blob(hash_of(manifest))] == manifest
            &&& earlier != hash_of(manifest) ==> {
                &&& twice.files.contains_key(Location::Blob(earlier))
                &&& twice.files[Location::Blob(earlier)] == world.body
                &&& fetched == Some(SessionView::Done(blob_reply(earlier)))
                &&& after.opened == Some(Location::Blob(earlier))
                &&& after.files == twice.files
            }
        }),
{
    let left = left_index(world, name, reference);
    let once = World { files: left_files(world, name, reference), ..world };
    let next = World { body: manifest, ..once };
    push_stores_the_manifest(world, name, reference);
    left_index_is_read(world, name, reference);
    assert(outcome(next, Action::ReadText(Location::Index)) == outcome(
        once,
        Action::ReadText(Location::Index),
    ));
    assert(found_index(next) == reread(left));
    entered_image_has_one_entry(found_index(world), world, name, reference);
    like_indexes_lead_alike(reread(left), left, name, reference);
    push_stores_the_manifest(next, name, reference);
    entered_image_has_one_entry(found_index(next), next, name, reference);
    hash_is_plain(world.body);
    reveal_with_fuel(run, 2);
}

/// What was sent for an upload so far.
pub open spec fn content_of(world: World, id: Seq<char>) -> Seq<u8> {
    if world.files.contains_key(Location::Upload(id)) {
        world.files[Location::Upload(id)]
    } else {
        Seq::empty()
    }
}

/// The range of a chunk of `size` bytes behind `before` bytes.
pub open spec fn range_behind(before: nat, size: nat) -> Seq<char> {
    decimal(before) + "-"@ + decimal((before + size - 1) as nat)
}

/// A chunk that follows on those before it is put behind them, and the reply says how much there is
/// now: with no range, or with the range of just this chunk.
pub proof fn chunk_is_put_behind(
    world: World,
    name: Seq<char>,
    id: Seq<char>,
    range: Option<Seq<char>>,
)
    requires
        is_plain(id),
        content_of(world, id).len() + world.body.len() <= usize::MAX,
        range matches Some(text) ==> world.body.len() > 0 && text == range_behind(
            content_of(world, id).len(),
            world.body.len(),
        ),
    ensures
        ({
            let content = content_of(world, id) + world.body;
            served(SessionView::Upload(Upload::Chunk { name, id, range }), world) == (
                Some(SessionView::Done(grown_reply(name, id, content.len() as int))),
                World { files: world.files.insert(Location::Upload(id), content), ..world },
            )
        }),
{
    let before = content_of(world, id);
    let chunk = world.body;
    if range is Some {
        range_reads_back(before.len() as usize, (before.len() + chunk.len() - 1) as usize);
    }
    assert(Seq::<u8>::empty() + chunk =~= chunk);
    if before.len() == 0 {
        assert(before =~= Seq::empty());
    }
    reveal_with_fuel(run, 7);
}

/// A chunk whose range begins elsewhere than behind those before it is refused: the reply says how
/// much there is, and nothing changes.
pub proof fn chunk_out_of_order_is_refused(
    world: World,
    name: Seq<char>,
    id: Seq<char>,
    range: Seq<char>,
    first: usize,
    last: usize,
)
    requires
        is_plain(id),
        content_of(world, id).len() <= usize::MAX,
        range_bounds(range) == Some((first, last)),
        first != content_of(world, id).len(),
    ensures
        served(SessionView::Upload(Upload::Chunk { name, id, range: Some(range) }), world) == (
            Some(SessionView::Done(out_of_order_reply(content_of(world, id).len() as int))),
            world,
        ),
{
    reveal_with_fuel(run, 5);
}

/// A chunk of another length than its range is refused, and nothing changes. So is any chunk whose
/// range ends before it begins, but for an empty one whose range ends right before it begins.
pub proof fn chunk_of_wrong_length_is_refused(
    world: World,
    name: Seq<char>,
    id: Seq<char>,
    range: Seq<char>,
    first: usize,
    last: usize,
)
    requires
        is_plain(id),
        range_bounds(range) == Some((first, last)),
        first == content_of(world, id).len(),
        world.body.len() != last - first + 1,
    ensures
        served(SessionView::Upload(Upload::Chunk { name, id, range: Some(range) }), world) == (
            Some(
                SessionView::refused(
                    BAD_REQUEST,
                    "Content-Length does not match Content-Range"@,
                ),
            ),
            world,
        ),
{
    reveal_with_fuel(run, 5);
}

/// The blob that a request closes an upload with: what was sent in chunks, or else what is sent with
/// the request.
pub open spec fn sent_blob(world: World, id: Seq<char>) -> Seq<u8> {
    if world.files.contains_key(Location::Upload(id)) {
        world.files[Location::Upload(id)]
    } else {
        world.body
    }
}

/// An upload that is closed with the digest of what was sent, or with none, is stored under the hash
/// of its content; what was sent in chunks is cleared away; and every other file stays as it was.
pub proof fn closed_upload_is_stored(world: World, id: Seq<char>, query: Seq<char>)
    requires
        is_plain(id),
        named_digest(query) matches Some(digest) ==> digest == digest_of(sent_blob(world, id)),
    ensures
        ({
            let blob = sent_blob(world, id);
            let hash = hash_of(blob);
            served(SessionView::Upload(Upload::LastBody { id, query }), world) == (
                Some(SessionView::Done(stored_reply(hash))),
                World {
                    files: world.files.insert(Location::Blob(hash), blob).remove(
                        Location::Upload(id),
                    ),
                    ..world
                },
            )
        }),
{
    let blob = sent_blob(world, id);
    let hash = hash_of(blob);
    digest_is_plain(blob);
    hash_is_plain(blob);
    let stored = world.files.insert(Location::Blob(hash), blob);
    if !world.files.contains_key(Location::Upload(id)) {
        assert(stored.remove(Location::Upload(id)) =~= stored);
    }
    reveal_with_fuel(run, 8);
}

/// An upload that is closed with another digest than that of what was sent is refused, and nothing
/// changes: not even what was sent in chunks is lost.
pub proof fn mismatched_upload_is_refused(
    world: World,
    id: Seq<char>,
    query: Seq<char>,
    digest: Seq<char>,
)
    requires
        is_plain(id),
        named_digest(query) == Some(digest),
        digest != digest_of(sent_blob(world, id)),
    ensures
        served(SessionView::Upload(Upload::LastBody { id, query }), world) == (
            Some(
                if digest.len() == 0 {
                    SessionView::refused(BAD_REQUEST, "Missing digest"@)
                } else {
                    SessionView::refused(
                        BAD_REQUEST,
                        "Digest mismatch: expected "@ + digest + " got "@ + digest_of(
                            sent_blob(world, id),
                        ),
                    )
                },
            ),
            world,
        ),
{
    reveal_with_fuel(run, 4);
}

/// What was uploaded is what is fetched and described: once an upload is closed, a request for its
/// digest is answered with its content, one to describe it with its size, and neither changes
/// anything.
pub proof fn uploaded_blob_is_fetched(world: World, id: Seq<char>, query: Seq<char>)
    requires
        is_plain(id),
        named_digest(query) matches Some(digest) ==> digest == digest_of(sent_blob(world, id)),
        sent_blob(world, id).len() <= u64::MAX,
    ensures
        ({
            let blob = sent_blob(world, id);
            let hash = hash_of(blob);
            let (_, left) = served(SessionView::Upload(Upload::LastBody { id, query }), world);
            let (fetched, after) = served(SessionView::Pull(Pull::BlobFile { hash }), left);
            &&& fetched == Some(SessionView::Done(blob_reply(hash)))
            &&& after.opened == Some(Location::Blob(hash))
            &&& after.files[Location::Blob(hash)] == blob
            &&& after.files == left.files
            &&& served(SessionView::Pull(Pull::BlobSize { hash }), left) == (
                Some(
                    SessionView::Done(
                        probe_reply(hash, "application/octet-stream"@, blob.len() as u64),
                    ),
                ),
                left,
            )
        }),
{
    hash_is_plain(sent_blob(world, id));
    closed_upload_is_stored(world, id, query);
    reveal_with_fuel(run, 2);
}

/// The world once chunks were sent for an upload, one after another, each with its range or each
/// without.
pub open spec fn once_sent(
    world: World,
    name: Seq<char>,
    id: Seq<char>,
    chunks: Seq<Seq<u8>>,
    ranged: bool,
) -> World
    decreases chunks.len(),
{
    if chunks.len() == 0 {
        world
    } else {
        let earlier = once_sent(world, name, id, chunks.drop_last(), ranged);
        let range = if ranged {
            Some(range_behind(content_of(earlier, id).len(), chunks.last().len()))
        } else {
            None
        };
        served(
            SessionView::Upload(Upload::Chunk { name, id, range }),
            World { body: chunks.last(), ..earlier },
        ).1
    }
}

/// A range can be told of each chunk: none is empty.
pub open spec fn all_have_ranges(chunks: Seq<Seq<u8>>) -> bool {
    forall|i: int| 0 <= i < chunks.len() ==> #[trigger] chunks[i].len() > 0
}

/// Chunks, one behind the other.
pub open spec fn all_of(chunks: Seq<Seq<u8>>) -> Seq<u8>
    decreases chunks.len(),
{
    if chunks.len() == 0 {
        Seq::empty()
    } else {
        all_of(chunks.drop_last()) + chunks.last()
    }
}

/// An upload holds the chunks that were sent for it, in their order, and no other file changes.
pub proof fn chunks_add_up(
    world: World,
    name: Seq<char>,
    id: Seq<char>,
    chunks: Seq<Seq<u8>>,
    ranged: bool,
)
    requires
        is_plain(id),
        content_of(world, id).len() + all_of(chunks).len() <= usize::MAX,
        ranged ==> all_have_ranges(chunks),
    ensures
        content_of(once_sent(world, name, id, chunks, ranged), id) == content_of(world, id)
            + all_of(chunks),
        once_sent(world, name, id, chunks, ranged).files == if chunks.len() == 0 {
            world.files
        } else {
            world.files.insert(Location::Upload(id), content_of(world, id) + all_of(chunks))
        },
    decreases chunks.len(),
{
    if chunks.len() == 0 {
        assert(content_of(world, id) + Seq::<u8>::empty() =~= content_of(world, id));
    } else {
        let front = chunks.drop_last();
        let last = chunks.last();
        if ranged {
            assert(chunks[chunks.len() - 1].len() > 0);
            assert forall|i: int| 0 <= i < front.len() implies #[trigger] front[i].len() > 0 by {
                assert(chunks[i].len() > 0);
            }
        }
        chunks_add_up(world, name, id, front, ranged);
        let earlier = once_sent(world, name, id, front, ranged);
        let next = World { body: last, ..earlier };
        let range = if ranged {
            Some(range_behind(content_of(earlier, id).len(), last.len()))
        } else {
            None
        };
        assert(content_of(next, id) == content_of(earlier, id));
        chunk_is_put_behind(next, name, id, range);
        assert(content_of(world, id) + all_of(front) + last =~= content_of(world, id) + (all_of(
            front,
        ) + last));
        assert(once_sent(world, name, id, chunks, ranged).files =~= world.files.insert(
            Location::Upload(id),
            content_of(world, id) + all_of(chunks),
        ));
    }
}

/// A blob that is sent in chunks is stored whole: once its chunks were sent for a new upload, with
/// their ranges or without, closing it with the digest of them all stores them all, under their hash,
/// and leaves nothing else behind.
pub proof fn chunked_upload_is_stored(
    world: World,
    name: Seq<char>,
    id: Seq<char>,
    chunks: Seq<Seq<u8>>,
    ranged: bool,
    query: Seq<char>,
)
    requires
        is_plain(id),
        !world.files.contains_key(Location::Upload(id)),
        chunks.len() > 0,
        all_of(chunks).len() <= usize::MAX,
        ranged ==> all_have_ranges(chunks),
        named_digest(query) == Some(digest_of(all_of(chunks))),
    ensures
        ({
            let hash = hash_of(all_of(chunks));
            let sent = once_sent(world, name, id, chunks, ranged);
            let (closed, left) = served(SessionView::Upload(Upload::LastBody { id, query }), sent);
            &&& closed == Some(SessionView::Done(stored_reply(hash)))
            &&& left.files == world.files.insert(Location::Blob(hash), all_of(chunks))
        }),
{
    let hash = hash_of(all_of(chunks));
    let sent = once_sent(world, name, id, chunks, ranged);
    chunks_add_up(world, name, id, chunks, ranged);
    assert(content_of(world, id) + all_of(chunks) =~= all_of(chunks));
    closed_upload_is_stored(sent, id, query);
    assert(sent.files.insert(Location::Blob(hash), all_of(chunks)).remove(Location::Upload(id))
        =~= world.files.insert(Location::Blob(hash), all_of(chunks)));
}

/// A pushed manifest is described by its digest with the media type that it was pushed with, under
/// any name, where the index has that digest for no other image.
pub proof fn pushed_digest_is_described_with_its_type(
    world: World,
    name: Seq<char>,
    reference: Seq<char>,
    asked_name: Seq<char>,
)
    requires
        listed(found_index(world)) is Some,
        forall|i: int|
            0 <= i < listed(found_index(world))->0.len() && entry_digest(
                #[trigger] listed(found_index(world))->0[i],
            ) == Some("sha256:"@ + hash_of(world.body)) ==> base_name(
                listed(found_index(world))->0[i],
            ) == Some(name + ":"@ + reference),
        is_kept(left_index(world, name, reference)),
        world.body.len() <= u64::MAX,
    ensures
        ({
            let manifest = world.body;
            let (_, left) = served(SessionView::Push(Push::Manifest { name, reference }), world);
            served(
                SessionView::Pull(
                    Pull::ProbedIndex { name: asked_name, reference: digest_of(manifest) },
                ),
                left,
            ) == (
                Some(
                    SessionView::Done(
                        probe_reply(
                            hash_of(manifest),
                            manifest_type(manifest),
                            manifest.len() as u64,
                        ),
                    ),
                ),
                left,
            )
        }),
{
    let manifest = world.body;
    let hash = hash_of(manifest);
    let image = image_name(name, reference);
    let all = listed(found_index(world))->0;
    let entry = pushed_entry(world, name, reference);
    let index = left_index(world, name, reference);
    let list = listed(index)->0;
    pushed_digest_is_described(world, name, reference, asked_name);
    entry_is_listed(found_index(world), image, entry);
    others_are_entries(all, image);
    new_entry_says(manifest_type(manifest), digest_of(manifest), manifest.len() as int, image);
    let k = list.len() - 1;
    assert forall|i: int| 0 <= i < k implies entry_digest(#[trigger] list[i]) != Some(
        digest_of(manifest),
    ) by {
        let kept = others(all, image);
        assert(list[i] == kept[i] && base_name(kept[i]) != Some(image));
        let j = choose|j: int| 0 <= j < all.len() && #[trigger] all[j] == kept[i];
        assert(listed(found_index(world))->0[j] == kept[i]);
    }
    digest_is_described_by_its_first_entry(index, k, asked_name, hash);
}

/// The chunks of an upload, one behind the other, are all that was sent, in that order.
pub proof fn chunks_are_all_there(chunks: Seq<Seq<u8>>)
    ensures
        all_of(chunks) == chunks.flatten(),
    decreases chunks.len(),
{
    if chunks.len() > 0 {
        chunks_are_all_there(chunks.drop_last());
        chunks.drop_last().lemma_flatten_push(chunks.last());
        assert(chunks.drop_last().push(chunks.last()) =~= chunks);
    } else {
        assert(all_of(chunks) =~= chunks.flatten());
    }
}

} // verus!
