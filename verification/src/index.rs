//! The image index: which manifest an image name stands for.
use crate::digest::DIGEST_PREFIX;
use crate::json::{array_view, last_place, object_view, pair_makes_way, put, Json, JsonView};
use crate::text::{has_prefix, joined, prefix_is_the_front, same_text, strip_prefix};
use vstd::prelude::*;

verus! {

/// The media type of a manifest that names none.
pub const OCI_MIME_TYPE: &'static str = "application/vnd.oci.image.manifest.v1+json";

/// The annotation under which an entry of the index holds the name of its image.
pub const BASE_NAME: &'static str = "org.opencontainers.image.base.name";

/// The name of an image: the repository, a colon, the reference.
pub open spec fn image_name(name: Seq<char>, reference: Seq<char>) -> Seq<char> {
    name + ":"@ + reference
}

/// The entries of an index, where it has a list of them.
pub open spec fn listed(index: JsonView) -> Option<Seq<JsonView>> {
    index.member("manifests"@).items()
}

/// The entries of an index: none where it has no list of them.
pub open spec fn entries(index: JsonView) -> Seq<JsonView> {
    match listed(index) {
        Some(entries) => entries,
        None => Seq::empty(),
    }
}

/// The image that an entry is for, where it says so.
pub open spec fn base_name(entry: JsonView) -> Option<Seq<char>> {
    entry.member("annotations"@).member(BASE_NAME@).text()
}

/// The digest that an entry, or a manifest, is for, where it says so.
pub open spec fn entry_digest(entry: JsonView) -> Option<Seq<char>> {
    entry.member("digest"@).text()
}

/// The media type that an entry, or a manifest, names, or the one that it has without a word.
pub open spec fn media_type(json: JsonView) -> Seq<char> {
    match json.member("mediaType"@).text() {
        Some(text) => text,
        None => OCI_MIME_TYPE@,
    }
}

/// The entry at `at` is the last one for `image`.
pub open spec fn is_last_for(entries: Seq<JsonView>, image: Seq<char>, at: int) -> bool {
    &&& 0 <= at < entries.len()
    &&& base_name(entries[at]) == Some(image)
    &&& forall|i: int| at < i < entries.len() ==> base_name(#[trigger] entries[i]) != Some(image)
}

/// The entry at `at` is the first one for `image`.
pub open spec fn is_first_for(entries: Seq<JsonView>, image: Seq<char>, at: int) -> bool {
    &&& 0 <= at < entries.len()
    &&& base_name(entries[at]) == Some(image)
    &&& forall|i: int| 0 <= i < at ==> base_name(#[trigger] entries[i]) != Some(image)
}

/// The entry at `at` is the first one with `digest`.
pub open spec fn is_first_with(entries: Seq<JsonView>, digest: Seq<char>, at: int) -> bool {
    &&& 0 <= at < entries.len()
    &&& entry_digest(entries[at]) == Some(digest)
    &&& forall|i: int| 0 <= i < at ==> entry_digest(#[trigger] entries[i]) != Some(digest)
}

/// Whether an image can be looked up to be pulled: a digest always can; by name, every entry has
/// to name its image, and those for this one a digest.
pub open spec fn can_pull(index: JsonView, name: Seq<char>, reference: Seq<char>) -> bool {
    has_prefix(reference, DIGEST_PREFIX@) || (listed(index) matches Some(entries) && forall|i: int|
        0 <= i < entries.len() ==> (base_name(#[trigger] entries[i]) matches Some(image) && (image
            == image_name(name, reference) ==> (entry_digest(entries[i]) matches Some(digest)
            && has_prefix(digest, DIGEST_PREFIX@)))))
}

/// The hash of the manifest that an image is pulled by: the one in the reference, or the one of
/// the last entry for the image. It is empty where there is no such entry.
pub open spec fn pulled_hash(index: JsonView, name: Seq<char>, reference: Seq<char>) -> Seq<char> {
    let image = image_name(name, reference);
    if has_prefix(reference, DIGEST_PREFIX@) {
        reference.skip(DIGEST_PREFIX@.len() as int)
    } else if exists|at: int| is_last_for(entries(index), image, at) {
        let at = choose|at: int| is_last_for(entries(index), image, at);
        entry_digest(entries(index)[at])->0.skip(DIGEST_PREFIX@.len() as int)
    } else {
        Seq::empty()
    }
}

/// `digest` without the prefix of digests, where it has it.
pub open spec fn without_prefix(digest: Seq<char>) -> Seq<char> {
    if has_prefix(digest, DIGEST_PREFIX@) {
        digest.skip(DIGEST_PREFIX@.len() as int)
    } else {
        digest
    }
}

/// The hash and the media type that a probe for an image answers with: those of the first entry
/// with the digest in the reference, or of the first entry for the image. The hash is empty where
/// there is no such entry, or where it has no digest.
pub open spec fn probed(index: JsonView, name: Seq<char>, reference: Seq<char>) -> (
    Seq<char>,
    Seq<char>,
) {
    let all = entries(index);
    let image = image_name(name, reference);
    if has_prefix(reference, DIGEST_PREFIX@) {
        (
            reference.skip(DIGEST_PREFIX@.len() as int),
            if exists|at: int| is_first_with(all, reference, at) {
                media_type(all[choose|at: int| is_first_with(all, reference, at)])
            } else {
                OCI_MIME_TYPE@
            },
        )
    } else if exists|at: int| is_first_for(all, image, at) {
        let entry = all[choose|at: int| is_first_for(all, image, at)];
        (
            match entry_digest(entry) {
                Some(digest) => without_prefix(digest),
                None => Seq::empty(),
            },
            media_type(entry),
        )
    } else {
        (Seq::empty(), OCI_MIME_TYPE@)
    }
}

/// An index with no entries.
pub open spec fn empty_index() -> JsonView {
    JsonView::Object(
        Map::empty().insert("schemaVersion"@, JsonView::Integer(2)).insert(
            "manifests"@,
            JsonView::Array(Seq::empty()),
        ),
    )
}

/// The entry for an image.
pub open spec fn new_entry(
    media_type: Seq<char>,
    digest: Seq<char>,
    size: int,
    image: Seq<char>,
) -> JsonView {
    JsonView::Object(
        Map::empty().insert("mediaType"@, JsonView::Text(media_type)).insert(
            "digest"@,
            JsonView::Text(digest),
        ).insert("size"@, JsonView::Integer(size)).insert(
            "annotations"@,
            JsonView::Object(Map::empty().insert(BASE_NAME@, JsonView::Text(image))),
        ),
    )
}

/// The entries other than those for `image`, in their order.
pub open spec fn others(entries: Seq<JsonView>, image: Seq<char>) -> Seq<JsonView> {
    entries.filter(|entry: JsonView| base_name(entry) != Some(image))
}

/// The index can take entries: it is an object, or nothing yet.
pub open spec fn can_push(index: JsonView) -> bool {
    index is Object || index is Null
}

/// The index once `entry` is in it for `image`: in its list, behind the entries for other images.
/// An index without a list gets no entry; one without the member gets a null.
pub open spec fn with_entry(index: JsonView, image: Seq<char>, entry: JsonView) -> JsonView {
    match index {
        JsonView::Object(members) => if members.contains_key("manifests"@) {
            match members["manifests"@] {
                JsonView::Array(entries) => JsonView::Object(
                    members.insert(
                        "manifests"@,
                        JsonView::Array(others(entries, image).push(entry)),
                    ),
                ),
                _ => index,
            }
        } else {
            JsonView::Object(members.insert("manifests"@, JsonView::Null))
        },
        _ => JsonView::Object(Map::empty().insert("manifests"@, JsonView::Null)),
    }
}

/// The image that an entry is for, where it says so.
fn entry_name(entry: &Json) -> (image: Option<&str>)
    ensures
        match image {
            Some(text) => base_name(entry@) == Some(text@),
            None => base_name(entry@) is None,
        },
{
    match entry.get("annotations") {
        Some(annotations) => annotations.member_text(BASE_NAME),
        None => None,
    }
}

/// Whether an entry is for `image`.
fn is_for(entry: &Json, image: &str) -> (result: bool)
    ensures
        result == (base_name(entry@) == Some(image@)),
{
    match entry_name(entry) {
        Some(text) => same_text(text, image),
        None => false,
    }
}

/// The name of an image: the repository, a colon, the reference.
pub fn image(name: &str, reference: &str) -> (image: String)
    ensures
        image@ == image_name(name@, reference@),
{
    let start = joined(name, ":");
    joined(start.as_str(), reference)
}

/// The media type that an entry, or a manifest, names, or the one that it has without a word.
pub fn media_type_of(json: &Json) -> (text: String)
    ensures
        text@ == media_type(json@),
{
    match json.member_text("mediaType") {
        Some(text) => text.to_owned(),
        None => OCI_MIME_TYPE.to_owned(),
    }
}

/// The entries of an index, where it has a list of them.
fn list_of(index: &Json) -> (list: Option<&Vec<Json>>)
    ensures
        match list {
            Some(items) => listed(index@) matches Some(views) && views.len() == items@.len()
                && forall|i: int| 0 <= i < views.len() ==> #[trigger] views[i] == items@[i]@,
            None => listed(index@) is None,
        },
{
    match index.get("manifests") {
        Some(Json::Array(items)) => Some(items),
        _ => None,
    }
}

/// Whether an image can be looked up to be pulled.
pub fn pull_is_possible(index: &Json, name: &str, reference: &str) -> (possible: bool)
    ensures
        possible == can_pull(index@, name@, reference@),
{
    if strip_prefix(reference, DIGEST_PREFIX).is_some() {
        return true;
    }
    let wanted = image(name, reference);
    match list_of(index) {
        None => false,
        Some(items) => {
            let ghost all = listed(index@)->0;
            for i in 0..items.len()
                invariant
                    all.len() == items@.len(),
                    forall|j: int| 0 <= j < all.len() ==> #[trigger] all[j] == items@[j]@,
                    wanted@ == image_name(name@, reference@),
                    forall|j: int|
                        0 <= j < i ==> (base_name(#[trigger] all[j]) matches Some(image) && (image
                            == wanted@ ==> (entry_digest(all[j]) matches Some(digest)
                            && has_prefix(digest, DIGEST_PREFIX@)))),
                    listed(index@) == Some(all),
                    !has_prefix(reference@, DIGEST_PREFIX@),
            {
                assert(all[i as int] == items@[i as int]@);
                match entry_name(&items[i]) {
                    None => {
                        return false;
                    },
                    Some(text) => {
                        if same_text(text, wanted.as_str()) {
                            match items[i].member_text("digest") {
                                None => {
                                    return false;
                                },
                                Some(digest) => {
                                    if strip_prefix(digest, DIGEST_PREFIX).is_none() {
                                        return false;
                                    }
                                },
                            }
                        }
                    },
                }
            }
            true
        },
    }
}

/// The hash of the manifest that an image is pulled by.
pub fn pull_hash(index: &Json, name: &str, reference: &str) -> (hash: String)
    requires
        can_pull(index@, name@, reference@),
    ensures
        hash@ == pulled_hash(index@, name@, reference@),
{
    if let Some(hash) = strip_prefix(reference, DIGEST_PREFIX) {
        return hash;
    }
    let wanted = image(name, reference);
    let ghost all = entries(index@);
    if let Some(items) = list_of(index) {
        let mut at: usize = items.len();
        while at > 0
            invariant
                at <= items@.len(),
                all.len() == items@.len(),
                all == entries(index@),
                forall|j: int| 0 <= j < all.len() ==> #[trigger] all[j] == items@[j]@,
                wanted@ == image_name(name@, reference@),
                !has_prefix(reference@, DIGEST_PREFIX@),
                can_pull(index@, name@, reference@),
                listed(index@) == Some(all),
                forall|j: int| at <= j < all.len() ==> base_name(#[trigger] all[j]) != Some(wanted@),
            decreases at,
        {
            at = at - 1;
            assert(all[at as int] == items@[at as int]@);
            if is_for(&items[at], wanted.as_str()) {
                assert(is_last_for(all, wanted@, at as int));
                match items[at].member_text("digest") {
                    Some(digest) => match strip_prefix(digest, DIGEST_PREFIX) {
                        Some(rest) => {
                            return rest;
                        },
                        None => {
                            assert(false);
                        },
                    },
                    None => {
                        assert(false);
                    },
                }
            }
        }
    }
    String::new()
}

/// The hash and the media type that a probe for an image answers with.
pub fn probe(index: &Json, name: &str, reference: &str) -> (found: (String, String))
    ensures
        (found.0@, found.1@) == probed(index@, name@, reference@),
{
    let ghost all = entries(index@);
    if let Some(hash) = strip_prefix(reference, DIGEST_PREFIX) {
        if let Some(items) = list_of(index) {
            for i in 0..items.len()
                invariant
                    all == entries(index@),
                    all.len() == items@.len(),
                    forall|j: int| 0 <= j < all.len() ==> #[trigger] all[j] == items@[j]@,
                    forall|j: int|
                        0 <= j < i ==> entry_digest(#[trigger] all[j]) != Some(reference@),
                    has_prefix(reference@, DIGEST_PREFIX@),
                    hash@ == reference@.skip(DIGEST_PREFIX@.len() as int),
            {
                assert(all[i as int] == items@[i as int]@);
                if let Some(digest) = items[i].member_text("digest") {
                    if same_text(digest, reference) {
                        assert(is_first_with(all, reference@, i as int));
                        return (hash, media_type_of(&items[i]));
                    }
                }
            }
        }
        return (hash, OCI_MIME_TYPE.to_owned());
    }
    let wanted = image(name, reference);
    if let Some(items) = list_of(index) {
        for i in 0..items.len()
            invariant
                all == entries(index@),
                all.len() == items@.len(),
                forall|j: int| 0 <= j < all.len() ==> #[trigger] all[j] == items@[j]@,
                forall|j: int| 0 <= j < i ==> base_name(#[trigger] all[j]) != Some(wanted@),
                !has_prefix(reference@, DIGEST_PREFIX@),
                wanted@ == image_name(name@, reference@),
        {
            assert(all[i as int] == items@[i as int]@);
            if is_for(&items[i], wanted.as_str()) {
                assert(is_first_for(all, wanted@, i as int));
                let hash = match items[i].member_text("digest") {
                    Some(digest) => match strip_prefix(digest, DIGEST_PREFIX) {
                        Some(rest) => rest,
                        None => digest.to_owned(),
                    },
                    None => String::new(),
                };
                return (hash, media_type_of(&items[i]));
            }
        }
    }
    (String::new(), OCI_MIME_TYPE.to_owned())
}

/// An index with no entries.
pub fn fresh_index() -> (index: Json)
    ensures
        index@ == empty_index(),
{
    let mut pairs: Vec<(String, Json)> = Vec::new();
    let list: Vec<Json> = Vec::new();
    put(&mut pairs, "schemaVersion", Json::Unsigned(2));
    assert(array_view(list@) =~= Seq::empty());
    put(&mut pairs, "manifests", Json::Array(list));
    Json::Object(pairs)
}

/// The entry for an image.
pub fn make_entry(media_type: &str, digest: &str, size: usize, image: &str) -> (entry: Json)
    ensures
        entry@ == new_entry(media_type@, digest@, size as int, image@),
{
    let mut annotations: Vec<(String, Json)> = Vec::new();
    put(&mut annotations, BASE_NAME, Json::Text(image.to_owned()));
    let mut pairs: Vec<(String, Json)> = Vec::new();
    put(&mut pairs, "mediaType", Json::Text(media_type.to_owned()));
    put(&mut pairs, "digest", Json::Text(digest.to_owned()));
    put(&mut pairs, "size", Json::Unsigned(size as u64));
    put(&mut pairs, "annotations", Json::Object(annotations));
    Json::Object(pairs)
}

/// Drops the entries for `image`.
fn drop_entries(list: &mut Vec<Json>, image: &str)
    ensures
        array_view(final(list)@) == others(array_view(old(list)@), image@),
{
    let ghost all = array_view(list@);
    let ghost keeps = |entry: JsonView| base_name(entry) != Some(image@);
    let ghost mut seen: int = 0;
    let mut at: usize = 0;
    proof {
        assert(all.take(0).filter(keeps) =~= Seq::empty()) by {
            reveal(Seq::filter);
        }
        assert(array_view(list@).take(0) =~= Seq::empty());
        assert(all.skip(0) =~= all);
        assert(array_view(list@).skip(0) =~= all);
    }
    while at < list.len()
        invariant
            keeps == (|entry: JsonView| base_name(entry) != Some(image@)),
            at <= list@.len(),
            0 <= seen <= all.len(),
            all.len() - seen == list@.len() - at,
            array_view(list@).take(at as int) == all.take(seen).filter(keeps),
            array_view(list@).skip(at as int) == all.skip(seen),
        decreases list@.len() - at,
    {
        let ghost before = list@;
        proof {
            assert(array_view(before).skip(at as int)[0] == all.skip(seen)[0]);
            assert(all.take(seen + 1).drop_last() =~= all.take(seen));
            assert(all.take(seen + 1).filter(keeps) == if keeps(all[seen]) {
                all.take(seen).filter(keeps).push(all[seen])
            } else {
                all.take(seen).filter(keeps)
            }) by {
                reveal(Seq::filter);
            }
        }
        if is_for(&list[at], image) {
            list.remove(at);
            proof {
                assert(array_view(list@).take(at as int) =~= array_view(before).take(at as int));
                assert(array_view(list@).skip(at as int) =~= array_view(before).skip(at as int).skip(1));
                assert(all.skip(seen).skip(1) =~= all.skip(seen + 1));
                seen = seen + 1;
            }
        } else {
            proof {
                assert(array_view(list@).take(at + 1) =~= array_view(before).take(at as int).push(
                    all[seen],
                ));
                assert(array_view(list@).skip(at + 1) =~= array_view(before).skip(at as int).skip(1));
                assert(all.skip(seen).skip(1) =~= all.skip(seen + 1));
                seen = seen + 1;
            }
            at = at + 1;
        }
    }
    proof {
        assert(array_view(list@).take(at as int) =~= array_view(list@));
        assert(all.take(seen) =~= all);
    }
}

/// Whether an index can take entries.
pub fn takes_entries(index: &Json) -> (takes: bool)
    ensures
        takes == can_push(index@),
{
    match index {
        Json::Object(_) | Json::Null => true,
        _ => false,
    }
}

/// Enters `entry` for `image` into an index, in place of what it had for that image.
pub fn enter(index: Json, image: &str, entry: Json) -> (updated: Json)
    requires
        can_push(index@),
    ensures
        updated@ == with_entry(index@, image@, entry@),
{
    match index {
        Json::Object(mut pairs) => {
            let ghost all = pairs@;
            match last_place(&pairs, "manifests") {
                Some(place) => {
                    let (key, value) = pairs.remove(place);
                    let updated = match value {
                        Json::Array(mut list) => {
                            drop_entries(&mut list, image);
                            let ghost kept = list@;
                            list.push(entry);
                            assert(array_view(list@) =~= array_view(kept).push(entry@));
                            Json::Array(list)
                        },
                        other => other,
                    };
                    proof {
                        pair_makes_way(all, place as int, updated@);
                    }
                    put(&mut pairs, key.as_str(), updated);
                    assert(with_entry(index@, image@, entry@)->Object_0 =~= object_view(pairs@));
                },
                None => {
                    put(&mut pairs, "manifests", Json::Null);
                },
            }
            Json::Object(pairs)
        },
        _ => {
            let mut pairs: Vec<(String, Json)> = Vec::new();
            put(&mut pairs, "manifests", Json::Null);
            Json::Object(pairs)
        },
    }
}

/// The last entry for `image`.
spec fn last_for(entries: Seq<JsonView>, image: Seq<char>) -> Option<JsonView>
    decreases entries.len(),
{
    if entries.len() == 0 {
        None
    } else if base_name(entries.last()) == Some(image) {
        Some(entries.last())
    } else {
        last_for(entries.drop_last(), image)
    }
}

/// The first entry for `image`.
spec fn first_for(entries: Seq<JsonView>, image: Seq<char>) -> Option<JsonView>
    decreases entries.len(),
{
    if entries.len() == 0 {
        None
    } else {
        match first_for(entries.drop_last(), image) {
            Some(entry) => Some(entry),
            None => if base_name(entries.last()) == Some(image) {
                Some(entries.last())
            } else {
                None
            },
        }
    }
}

proof fn last_for_is_last(entries: Seq<JsonView>, image: Seq<char>)
    ensures
        match last_for(entries, image) {
            Some(entry) => exists|at: int| #[trigger] is_last_for(entries, image, at)
                && entries[at] == entry,
            None => forall|at: int| !is_last_for(entries, image, at),
        },
        last_for(entries, image) is None ==> forall|i: int|
            0 <= i < entries.len() ==> base_name(#[trigger] entries[i]) != Some(image),
    decreases entries.len(),
{
    if entries.len() > 0 {
        let rest = entries.drop_last();
        last_for_is_last(rest, image);
        if base_name(entries.last()) == Some(image) {
            assert(is_last_for(entries, image, entries.len() - 1));
        } else {
            if last_for(rest, image) is Some {
                let at = choose|at: int| is_last_for(rest, image, at) && rest[at] == last_for(
                    rest,
                    image,
                )->0;
                assert forall|i: int| at < i < entries.len() implies base_name(
                    #[trigger] entries[i],
                ) != Some(image) by {
                    if i < rest.len() {
                        assert(rest[i] == entries[i]);
                    }
                }
                assert(is_last_for(entries, image, at));
            } else {
                assert forall|i: int| 0 <= i < entries.len() implies base_name(
                    #[trigger] entries[i],
                ) != Some(image) by {
                    if i < rest.len() {
                        assert(rest[i] == entries[i]);
                    }
                }
            }
        }
    }
}

proof fn first_for_is_first(entries: Seq<JsonView>, image: Seq<char>)
    ensures
        match first_for(entries, image) {
            Some(entry) => exists|at: int| #[trigger] is_first_for(entries, image, at)
                && entries[at] == entry,
            None => forall|i: int|
                0 <= i < entries.len() ==> base_name(#[trigger] entries[i]) != Some(image),
        },
    decreases entries.len(),
{
    if entries.len() > 0 {
        let rest = entries.drop_last();
        first_for_is_first(rest, image);
        if first_for(rest, image) is Some {
            let at = choose|at: int| is_first_for(rest, image, at) && rest[at] == first_for(
                rest,
                image,
            )->0;
            assert forall|i: int| 0 <= i < at implies base_name(#[trigger] entries[i]) != Some(
                image,
            ) by {
                assert(rest[i] == entries[i]);
            }
            assert(is_first_for(entries, image, at));
        } else {
            assert forall|i: int| 0 <= i < entries.len() - 1 implies base_name(
                #[trigger] entries[i],
            ) != Some(image) by {
                assert(rest[i] == entries[i]);
            }
            if base_name(entries.last()) == Some(image) {
                assert(is_first_for(entries, image, entries.len() - 1));
            }
        }
    }
}

/// Of two last entries for an image, or two first ones, each is the other.
pub(crate) proof fn chosen_entries_are_one(entries: Seq<JsonView>, image: Seq<char>, at: int, other: int)
    ensures
        is_last_for(entries, image, at) && is_last_for(entries, image, other) ==> at == other,
        is_first_for(entries, image, at) && is_first_for(entries, image, other) ==> at == other,
{
}

/// What is left without an image was there before, and is not for that image.
pub(crate) proof fn others_are_entries(entries: Seq<JsonView>, image: Seq<char>)
    ensures
        forall|i: int|
            0 <= i < others(entries, image).len() ==> base_name(#[trigger] others(entries, image)[i])
                != Some(image) && exists|j: int|
                0 <= j < entries.len() && #[trigger] entries[j] == others(entries, image)[i],
{
    others_are_kept(entries, image, image);
    first_for_is_first(others(entries, image), image);
}

/// Dropping the entries for one image leaves those for another as they were.
proof fn others_are_kept(entries: Seq<JsonView>, image: Seq<char>, other: Seq<char>)
    ensures
        other != image ==> last_for(others(entries, image), other) == last_for(entries, other),
        other != image ==> first_for(others(entries, image), other) == first_for(entries, other),
        last_for(others(entries, image), image) is None,
        first_for(others(entries, image), image) is None,
        forall|i: int|
            0 <= i < others(entries, image).len() ==> exists|j: int|
                0 <= j < entries.len() && #[trigger] entries[j] == (#[trigger] others(
                    entries,
                    image,
                )[i]),
    decreases entries.len(),
{
    reveal(Seq::filter);
    if entries.len() > 0 {
        let rest = entries.drop_last();
        let last = entries.last();
        others_are_kept(rest, image, other);
        let kept = others(rest, image);
        if base_name(last) != Some(image) {
            assert(others(entries, image) == kept.push(last));
            assert(kept.push(last).drop_last() =~= kept);
        } else {
            assert(others(entries, image) == kept);
        }
        assert forall|i: int| 0 <= i < others(entries, image).len() implies exists|j: int|
            0 <= j < entries.len() && #[trigger] entries[j] == (#[trigger] others(
                entries,
                image,
            )[i]) by {
            if i < kept.len() {
                let j = choose|j: int| 0 <= j < rest.len() && #[trigger] rest[j] == kept[i];
                assert(entries[j] == kept[i]);
            } else {
                assert(entries[entries.len() - 1] == last);
            }
        }
    }
}

/// What an entry for an image says: the image, the digest and the media type.
pub proof fn new_entry_says(media: Seq<char>, digest: Seq<char>, size: int, image: Seq<char>)
    ensures
        base_name(new_entry(media, digest, size, image)) == Some(image),
        entry_digest(new_entry(media, digest, size, image)) == Some(digest),
        media_type(new_entry(media, digest, size, image)) == media,
{
    reveal_strlit("mediaType");
    reveal_strlit("digest");
    reveal_strlit("size");
    reveal_strlit("annotations");
    assert("mediaType"@.len() != "digest"@.len());
    assert("mediaType"@.len() != "size"@.len());
    assert("mediaType"@.len() != "annotations"@.len());
    assert("digest"@.len() != "size"@.len());
    assert("digest"@.len() != "annotations"@.len());
}

/// Where an index has a list, an entry made for an image comes to stand at its end, and the others
/// before it are those for other images.
pub proof fn entry_is_listed(index: JsonView, image: Seq<char>, entry: JsonView)
    ensures
        listed(index) matches Some(entries) ==> listed(with_entry(index, image, entry)) == Some(
            others(entries, image).push(entry),
        ),
{
}

/// An image has one entry once it was entered: the one at the end of the list.
pub proof fn image_has_one_entry(index: JsonView, image: Seq<char>, entry: JsonView)
    requires
        base_name(entry) == Some(image),
    ensures
        listed(index) is Some ==> (listed(with_entry(index, image, entry)) matches Some(entries)
            && entries.last() == entry && forall|i: int|
            0 <= i < entries.len() && base_name(#[trigger] entries[i]) == Some(image) ==> i
                == entries.len() - 1),
{
    if listed(index) is Some {
        let kept = others(listed(index)->0, image);
        entry_is_listed(index, image, entry);
        others_are_kept(listed(index)->0, image, image);
        first_for_is_first(kept, image);
        assert forall|i: int|
            0 <= i < kept.push(entry).len() && base_name(#[trigger] kept.push(entry)[i]) == Some(
                image,
            ) implies i == kept.len() by {
            if i < kept.len() {
                assert(base_name(kept[i]) != Some(image));
            }
        }
    }
}

/// Every entry of the index names its image.
pub open spec fn all_named(index: JsonView) -> bool {
    listed(index) matches Some(entries) && forall|i: int|
        0 <= i < entries.len() ==> base_name(#[trigger] entries[i]) is Some
}

/// An image that was entered can be pulled, where every entry names its image, and all entries then
/// still do.
pub proof fn entered_image_can_be_pulled(
    index: JsonView,
    name: Seq<char>,
    reference: Seq<char>,
    media: Seq<char>,
    hash: Seq<char>,
    size: int,
)
    requires
        all_named(index),
    ensures
        ({
            let image = image_name(name, reference);
            let entry = new_entry(media, DIGEST_PREFIX@ + hash, size, image);
            let updated = with_entry(index, image, entry);
            &&& can_pull(updated, name, reference)
            &&& all_named(updated)
        }),
{
    let image = image_name(name, reference);
    let digest = DIGEST_PREFIX@ + hash;
    let entry = new_entry(media, digest, size, image);
    let updated = with_entry(index, image, entry);
    let all = listed(index)->0;
    let kept = others(all, image);
    let list = kept.push(entry);
    new_entry_says(media, digest, size, image);
    entry_is_listed(index, image, entry);
    others_are_kept(all, image, image);
    first_for_is_first(kept, image);
    assert(digest.subrange(0, DIGEST_PREFIX@.len() as int) =~= DIGEST_PREFIX@);
    assert forall|i: int| 0 <= i < list.len() implies (base_name(#[trigger] list[i]) matches Some(
        named,
    ) && (named == image ==> (entry_digest(list[i]) matches Some(digest) && has_prefix(
        digest,
        DIGEST_PREFIX@,
    )))) by {
        if i < kept.len() {
            let j = choose|j: int| 0 <= j < all.len() && #[trigger] all[j] == kept[i];
            assert(list[i] == all[j]);
            assert(base_name(kept[i]) != Some(image));
        }
    }
}

/// The image that was entered last is the one that is looked up, to be pulled and to be probed: in
/// an index with a list, its name leads to the digest and the media type that it was entered with.
pub proof fn entered_image_is_found(
    index: JsonView,
    name: Seq<char>,
    reference: Seq<char>,
    media: Seq<char>,
    hash: Seq<char>,
    size: int,
)
    requires
        listed(index) is Some,
        !has_prefix(reference, DIGEST_PREFIX@),
    ensures
        ({
            let image = image_name(name, reference);
            let entry = new_entry(media, DIGEST_PREFIX@ + hash, size, image);
            let updated = with_entry(index, image, entry);
            &&& pulled_hash(updated, name, reference) == hash
            &&& probed(updated, name, reference) == (hash, media)
        }),
{
    let image = image_name(name, reference);
    let digest = DIGEST_PREFIX@ + hash;
    let entry = new_entry(media, digest, size, image);
    let updated = with_entry(index, image, entry);
    let kept = others(listed(index)->0, image);
    let list = kept.push(entry);
    new_entry_says(media, digest, size, image);
    entry_is_listed(index, image, entry);
    others_are_kept(listed(index)->0, image, image);
    first_for_is_first(kept, image);
    assert(list.drop_last() =~= kept);
    let at = list.len() - 1;
    assert(is_last_for(list, image, at));
    assert forall|i: int| 0 <= i < at implies base_name(#[trigger] list[i]) != Some(image) by {
        assert(list[i] == kept[i]);
    }
    assert(is_first_for(list, image, at));
    assert(digest.subrange(0, DIGEST_PREFIX@.len() as int) =~= DIGEST_PREFIX@);
    assert(digest.skip(DIGEST_PREFIX@.len() as int) =~= hash);
    let found = choose|i: int| is_last_for(list, image, i);
    chosen_entries_are_one(list, image, at, found);
    let probed_at = choose|i: int| is_first_for(list, image, i);
    chosen_entries_are_one(list, image, at, probed_at);
}

/// The name is looked up the same way in both lists.
proof fn same_entries_same_answers(
    index: JsonView,
    updated: JsonView,
    name: Seq<char>,
    reference: Seq<char>,
)
    requires
        !has_prefix(reference, DIGEST_PREFIX@),
        last_for(entries(index), image_name(name, reference)) == last_for(
            entries(updated),
            image_name(name, reference),
        ),
        first_for(entries(index), image_name(name, reference)) == first_for(
            entries(updated),
            image_name(name, reference),
        ),
    ensures
        pulled_hash(index, name, reference) == pulled_hash(updated, name, reference),
        probed(index, name, reference) == probed(updated, name, reference),
{
    lookups_are_these(index, name, reference);
    lookups_are_these(updated, name, reference);
}

/// What looking a name up comes to, in terms of the last and the first entry for it.
proof fn lookups_are_these(index: JsonView, name: Seq<char>, reference: Seq<char>)
    requires
        !has_prefix(reference, DIGEST_PREFIX@),
    ensures
        pulled_hash(index, name, reference) == match last_for(
            entries(index),
            image_name(name, reference),
        ) {
            Some(entry) => entry_digest(entry)->0.skip(DIGEST_PREFIX@.len() as int),
            None => Seq::empty(),
        },
        probed(index, name, reference) == match first_for(
            entries(index),
            image_name(name, reference),
        ) {
            Some(entry) => (
                match entry_digest(entry) {
                    Some(digest) => without_prefix(digest),
                    None => Seq::empty(),
                },
                media_type(entry),
            ),
            None => (Seq::empty(), OCI_MIME_TYPE@),
        },
{
    let image = image_name(name, reference);
    let all = entries(index);
    last_for_is_last(all, image);
    first_for_is_first(all, image);
    if last_for(all, image) is Some {
        let at = choose|at: int| #[trigger] is_last_for(all, image, at) && all[at] == last_for(
            all,
            image,
        )->0;
        chosen_entries_are_one(all, image, at, choose|at: int| is_last_for(all, image, at));
    }
    if first_for(all, image) is Some {
        let at = choose|at: int| #[trigger] is_first_for(all, image, at) && all[at] == first_for(
            all,
            image,
        )->0;
        chosen_entries_are_one(all, image, at, choose|at: int| is_first_for(all, image, at));
    }
}

/// Entering one image leaves the others as they were: what another name leads to, to be pulled and
/// to be probed, does not change, and it can be pulled if it could before.
pub proof fn other_images_are_kept(
    index: JsonView,
    image: Seq<char>,
    entry: JsonView,
    name: Seq<char>,
    reference: Seq<char>,
)
    requires
        can_push(index),
        base_name(entry) == Some(image),
        image_name(name, reference) != image,
        !has_prefix(reference, DIGEST_PREFIX@),
    ensures
        pulled_hash(with_entry(index, image, entry), name, reference) == pulled_hash(
            index,
            name,
            reference,
        ),
        probed(with_entry(index, image, entry), name, reference) == probed(index, name, reference),
        can_pull(index, name, reference) ==> can_pull(
            with_entry(index, image, entry),
            name,
            reference,
        ),
{
    let other = image_name(name, reference);
    let updated = with_entry(index, image, entry);
    if listed(index) is Some {
        let all = listed(index)->0;
        let kept = others(all, image);
        let list = kept.push(entry);
        entry_is_listed(index, image, entry);
        others_are_kept(all, image, other);
        assert(list.drop_last() =~= kept);
        if can_pull(index, name, reference) {
            assert forall|i: int| 0 <= i < list.len() implies (base_name(#[trigger] list[i]) matches
                Some(named) && (named == other ==> (entry_digest(list[i]) matches Some(digest)
                && has_prefix(digest, DIGEST_PREFIX@)))) by {
                if i < kept.len() {
                    let j = choose|j: int| 0 <= j < all.len() && #[trigger] all[j] == kept[i];
                    assert(list[i] == all[j]);
                }
            }
        }
    }
    same_entries_same_answers(index, updated, name, reference);
}

/// Where an index has its entries: under `manifests`, if that is a list. An index that is not an
/// object, or has no list there, has no entries, and one is given entries if it is an object or null.
pub proof fn entries_stand_under_manifests(
    members: Map<Seq<char>, JsonView>,
    list: Seq<JsonView>,
    index: JsonView,
)
    ensures
        listed(JsonView::Object(members.insert("manifests"@, JsonView::Array(list)))) == Some(list),
        entries(JsonView::Object(members.insert("manifests"@, JsonView::Array(list)))) == list,
        listed(index) is Some <==> index is Object && index.member("manifests"@) is Array,
        listed(index) is None ==> entries(index).len() == 0,
        can_push(index) <==> index is Object || index == JsonView::Null,
        listed(empty_index()) == Some(Seq::<JsonView>::empty()),
        empty_index().member("schemaVersion"@) == JsonView::Integer(2),
        empty_index() is Object,
        forall|key: Seq<char>| #[trigger]
            empty_index()->Object_0.contains_key(key) ==> key == "manifests"@ || key
                == "schemaVersion"@,
{
    reveal_strlit("manifests");
    reveal_strlit("schemaVersion");
    assert("manifests"@.len() != "schemaVersion"@.len());
}

/// What an entry says, it says under the names of the image layout: its image in an annotation, its
/// digest and its media type. Whatever else it has makes no difference.
pub proof fn entries_say_under_their_names(
    members: Map<Seq<char>, JsonView>,
    annotations: Map<Seq<char>, JsonView>,
    text: Seq<char>,
    json: JsonView,
)
    ensures
        base_name(
            JsonView::Object(
                members.insert(
                    "annotations"@,
                    JsonView::Object(
                        annotations.insert(
                            "org.opencontainers.image.base.name"@,
                            JsonView::Text(text),
                        ),
                    ),
                ),
            ),
        ) == Some(text),
        base_name(json) == json.member("annotations"@).member(
            "org.opencontainers.image.base.name"@,
        ).text(),
        entry_digest(JsonView::Object(members.insert("digest"@, JsonView::Text(text)))) == Some(
            text,
        ),
        entry_digest(json) == json.member("digest"@).text(),
        media_type(JsonView::Object(members.insert("mediaType"@, JsonView::Text(text)))) == text,
        !(json.member("mediaType"@) is Text) ==> media_type(json)
            == "application/vnd.oci.image.manifest.v1+json"@,
{
}

/// A new entry says its media type, its digest, its size and its image, and nothing more.
pub proof fn new_entry_says_four_things(
    media: Seq<char>,
    digest: Seq<char>,
    size: int,
    image: Seq<char>,
    key: Seq<char>,
)
    ensures
        ({
            let entry = new_entry(media, digest, size, image);
            &&& entry.member("mediaType"@) == JsonView::Text(media)
            &&& entry.member("digest"@) == JsonView::Text(digest)
            &&& entry.member("size"@) == JsonView::Integer(size)
            &&& entry.member("annotations"@).member("org.opencontainers.image.base.name"@)
                == JsonView::Text(image)
            &&& entry is Object && entry.member("annotations"@) is Object
            &&& entry->Object_0.contains_key(key) ==> key == "mediaType"@ || key == "digest"@ || key
                == "size"@ || key == "annotations"@
            &&& entry.member("annotations"@)->Object_0.contains_key(key) ==> key
                == "org.opencontainers.image.base.name"@
        }),
{
    reveal_strlit("mediaType");
    reveal_strlit("digest");
    reveal_strlit("size");
    reveal_strlit("annotations");
    assert("mediaType"@.len() == 9 && "digest"@.len() == 6 && "size"@.len() == 4
        && "annotations"@.len() == 11);
}

/// An image is pulled by the last of its entries, wherever that stands, and by nothing where it has
/// none; by a digest it is pulled by that digest, whatever the index holds.
pub proof fn image_is_pulled_by_its_last_entry(
    index: JsonView,
    list: Seq<JsonView>,
    k: int,
    name: Seq<char>,
    reference: Seq<char>,
    hash: Seq<char>,
)
    requires
        listed(index) == Some(list),
        !has_prefix(reference, "sha256:"@),
    ensures
        0 <= k < list.len() && base_name(list[k]) == Some(name + ":"@ + reference) && entry_digest(
            list[k],
        ) == Some("sha256:"@ + hash) && (forall|i: int|
            k < i < list.len() ==> base_name(#[trigger] list[i]) != Some(name + ":"@ + reference))
            ==> pulled_hash(index, name, reference) == hash,
        (forall|i: int|
            0 <= i < list.len() ==> base_name(#[trigger] list[i]) != Some(name + ":"@ + reference))
            ==> pulled_hash(index, name, reference).len() == 0,
{
    let image = name + ":"@ + reference;
    if 0 <= k < list.len() && base_name(list[k]) == Some(image) && entry_digest(list[k]) == Some(
        "sha256:"@ + hash,
    ) && (forall|i: int| k < i < list.len() ==> base_name(#[trigger] list[i]) != Some(image)) {
        assert(is_last_for(entries(index), image, k));
        let at = choose|at: int| is_last_for(entries(index), image, at);
        chosen_entries_are_one(entries(index), image, k, at);
        assert(("sha256:"@ + hash).skip("sha256:"@.len() as int) =~= hash);
    }
}

/// A reference that is a digest leads to that digest in every index, to be pulled and to be probed.
pub proof fn digest_leads_to_itself(index: JsonView, name: Seq<char>, hash: Seq<char>)
    ensures
        can_pull(index, name, "sha256:"@ + hash),
        pulled_hash(index, name, "sha256:"@ + hash) == hash,
        probed(index, name, "sha256:"@ + hash).0 == hash,
{
    prefix_is_the_front("sha256:"@ + hash, "sha256:"@, hash);
    assert(("sha256:"@ + hash).skip("sha256:"@.len() as int) =~= hash);
}

/// An image can be pulled by name just where the index has a list, every entry there names its image,
/// and each entry for this one has a digest that begins with `sha256:`.
pub proof fn image_can_be_pulled_by_name(
    index: JsonView,
    name: Seq<char>,
    reference: Seq<char>,
    i: int,
)
    requires
        !has_prefix(reference, "sha256:"@),
    ensures
        listed(index) is None ==> !can_pull(index, name, reference),
        listed(index) matches Some(list) ==> {
            &&& 0 <= i < list.len() && base_name(list[i]) is None ==> !can_pull(
                index,
                name,
                reference,
            )
            &&& 0 <= i < list.len() && base_name(list[i]) == Some(name + ":"@ + reference) && !(
            entry_digest(list[i]) matches Some(digest) && has_prefix(digest, "sha256:"@))
                ==> !can_pull(index, name, reference)
            &&& (forall|j: int|
                0 <= j < list.len() ==> (base_name(#[trigger] list[j]) matches Some(image) && (
                image != name + ":"@ + reference || (entry_digest(list[j]) matches Some(digest)
                    && has_prefix(digest, "sha256:"@))))) ==> can_pull(index, name, reference)
        },
{
}

/// By a digest, an image is described with the media type of the first entry with that digest,
/// wherever that stands, and with the usual one where there is none.
pub proof fn digest_is_described_by_its_first_entry(
    index: JsonView,
    k: int,
    name: Seq<char>,
    hash: Seq<char>,
)
    ensures
        ({
            let list = entries(index);
            let digest = "sha256:"@ + hash;
            &&& 0 <= k < list.len() && entry_digest(list[k]) == Some(digest) && (forall|i: int|
                0 <= i < k ==> entry_digest(#[trigger] list[i]) != Some(digest)) ==> probed(
                index,
                name,
                digest,
            ).1 == media_type(list[k])
            &&& (forall|i: int|
                0 <= i < list.len() ==> entry_digest(#[trigger] list[i]) != Some(digest))
                ==> probed(index, name, digest).1 == "application/vnd.oci.image.manifest.v1+json"@
        }),
{
    let list = entries(index);
    let digest = "sha256:"@ + hash;
    prefix_is_the_front(digest, "sha256:"@, hash);
    if 0 <= k < list.len() && entry_digest(list[k]) == Some(digest) && (forall|i: int|
        0 <= i < k ==> entry_digest(#[trigger] list[i]) != Some(digest)) {
        assert(is_first_with(list, digest, k));
        let at = choose|at: int| is_first_with(list, digest, at);
        assert(is_first_with(list, digest, at));
        assert(at == k);
    }
}

/// By its name, an image is described with the digest and the media type of the first of its entries,
/// wherever that stands, and not at all where it has none.
pub proof fn image_is_described_by_its_first_entry(
    index: JsonView,
    k: int,
    name: Seq<char>,
    reference: Seq<char>,
    hash: Seq<char>,
)
    requires
        !has_prefix(reference, "sha256:"@),
    ensures
        ({
            let list = entries(index);
            let image = name + ":"@ + reference;
            let found = probed(index, name, reference);
            &&& 0 <= k < list.len() && base_name(list[k]) == Some(image) && (forall|i: int|
                0 <= i < k ==> base_name(#[trigger] list[i]) != Some(image)) ==> {
                &&& found.1 == media_type(list[k])
                &&& entry_digest(list[k]) == Some("sha256:"@ + hash) ==> found.0 == hash
                &&& entry_digest(list[k]) matches Some(digest) ==> (!has_prefix(
                    digest,
                    "sha256:"@,
                ) ==> found.0 == digest)
                &&& entry_digest(list[k]) is None ==> found.0.len() == 0
            }
            &&& (forall|i: int|
                0 <= i < list.len() ==> base_name(#[trigger] list[i]) != Some(image))
                ==> found.0.len() == 0
        }),
{
    let list = entries(index);
    let image = name + ":"@ + reference;
    if 0 <= k < list.len() && base_name(list[k]) == Some(image) && (forall|i: int|
        0 <= i < k ==> base_name(#[trigger] list[i]) != Some(image)) {
        assert(is_first_for(list, image, k));
        let at = choose|at: int| is_first_for(list, image, at);
        chosen_entries_are_one(list, image, k, at);
        prefix_is_the_front("sha256:"@ + hash, "sha256:"@, hash);
        assert(("sha256:"@ + hash).skip("sha256:"@.len() as int) =~= hash);
    }
}

/// Entering an image takes out its old entries, puts the new one at the end, and leaves the other
/// entries in their order and everything else in the index as it was. An index without a list gets
/// none.
pub proof fn entering_changes_the_list_only(
    index: JsonView,
    image: Seq<char>,
    entry: JsonView,
    key: Seq<char>,
)
    requires
        index is Object || index == JsonView::Null,
    ensures
        with_entry(index, image, entry) is Object,
        with_entry(index, image, entry)->Object_0.contains_key("manifests"@),
        key != "manifests"@ ==> with_entry(index, image, entry).member(key) == index.member(key),
        key != "manifests"@ ==> with_entry(index, image, entry)->Object_0.contains_key(key) == (
        index is Object && index->Object_0.contains_key(key)),
        listed(index) matches Some(list) ==> listed(with_entry(index, image, entry)) == Some(
            list.filter(|old: JsonView| base_name(old) != Some(image)).push(entry),
        ),
        listed(index) is None ==> with_entry(index, image, entry).member("manifests"@)
            == index.member("manifests"@),
{
}

} // verus!
