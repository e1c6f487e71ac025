//! What is read back of an index that was written: it leads to the same manifests, and takes the
//! same entries.
use crate::index::{
    all_named, base_name, can_pull, can_push, chosen_entries_are_one, entries, entry_digest,
    image_name, is_first_for, is_first_with, is_last_for, listed, media_type, new_entry,
    others, others_are_entries, probed, pulled_hash, with_entry, BASE_NAME,
};
use crate::json::{alike, depth_limit, has_integers_only, nests, JsonView};
use vstd::prelude::*;

verus! {

/// A document is like itself.
pub proof fn document_is_like_itself(json: JsonView, depth: nat)
    requires
        nests(json, depth),
    ensures
        alike(json, json, depth),
    decreases depth,
{
    match json {
        JsonView::Array(items) => {
            assert forall|i: int| 0 <= i < items.len() implies alike(
                #[trigger] items[i],
                items[i],
                (depth - 1) as nat,
            ) by {
                document_is_like_itself(items[i], (depth - 1) as nat);
            }
        },
        JsonView::Object(members) => {
            assert forall|key: Seq<char>| #[trigger] members.contains_key(key) implies alike(
                members[key],
                members[key],
                (depth - 1) as nat,
            ) by {
                document_is_like_itself(members[key], (depth - 1) as nat);
            }
        },
        _ => {},
    }
}

/// Documents that are alike have members that are.
proof fn members_are_alike(a: JsonView, b: JsonView, depth: nat, key: Seq<char>)
    requires
        depth > 0,
        alike(a, b, depth),
    ensures
        alike(a.member(key), b.member(key), (depth - 1) as nat),
        a.text() == b.text(),
{
    if let JsonView::Object(members) = a {
        assert(members.contains_key(key) == b->Object_0.contains_key(key));
    }
}

/// Entries that are alike are for the same image, and have the same digest and media type.
proof fn entries_say_the_same(a: JsonView, b: JsonView, depth: nat)
    requires
        depth > 2,
        alike(a, b, depth),
    ensures
        base_name(a) == base_name(b),
        entry_digest(a) == entry_digest(b),
        media_type(a) == media_type(b),
{
    let under = (depth - 1) as nat;
    let name = BASE_NAME@;
    members_are_alike(a, b, depth, "annotations"@);
    members_are_alike(a, b, depth, "digest"@);
    members_are_alike(a, b, depth, "mediaType"@);
    members_are_alike(a.member("digest"@), b.member("digest"@), under, name);
    members_are_alike(a.member("mediaType"@), b.member("mediaType"@), under, name);
    members_are_alike(a.member("annotations"@), b.member("annotations"@), under, name);
    members_are_alike(
        a.member("annotations"@).member(name),
        b.member("annotations"@).member(name),
        (depth - 2) as nat,
        name,
    );
}

/// Indexes that are alike have lists that are, or both have none.
proof fn lists_are_alike(a: JsonView, b: JsonView)
    requires
        alike(a, b, depth_limit()),
    ensures
        listed(a) is Some == listed(b) is Some,
        entries(a).len() == entries(b).len(),
        forall|i: int|
            0 <= i < entries(a).len() ==> alike(
                #[trigger] entries(a)[i],
                #[trigger] entries(b)[i],
                (depth_limit() - 2) as nat,
            ),
        forall|i: int|
            #![trigger entries(a)[i]]
            #![trigger entries(b)[i]]
            0 <= i < entries(a).len() ==> base_name(entries(a)[i]) == base_name(entries(b)[i])
                && entry_digest(entries(a)[i]) == entry_digest(entries(b)[i]) && media_type(
                entries(a)[i],
            ) == media_type(entries(b)[i]),
{
    members_are_alike(a, b, depth_limit(), "manifests"@);
    let under = (depth_limit() - 2) as nat;
    assert forall|i: int| 0 <= i < entries(a).len() implies alike(
        #[trigger] entries(a)[i],
        #[trigger] entries(b)[i],
        under,
    ) by {}
    assert forall|i: int| 0 <= i < entries(a).len() implies base_name(#[trigger] entries(a)[i])
        == base_name(entries(b)[i]) && entry_digest(entries(a)[i]) == entry_digest(entries(b)[i])
        && media_type(entries(a)[i]) == media_type(entries(b)[i]) by {
        assert(alike(entries(a)[i], entries(b)[i], under));
        entries_say_the_same(entries(a)[i], entries(b)[i], under);
    }
}

/// The entries for an image stand at the same places in indexes that are alike.
proof fn entries_stand_alike(a: JsonView, b: JsonView, image: Seq<char>, at: int)
    requires
        alike(a, b, depth_limit()),
    ensures
        is_last_for(entries(a), image, at) == is_last_for(entries(b), image, at),
        is_first_for(entries(a), image, at) == is_first_for(entries(b), image, at),
        is_first_with(entries(a), image, at) == is_first_with(entries(b), image, at),
{
    lists_are_alike(a, b);
    let x = entries(a);
    let y = entries(b);
    assert forall|i: int| 0 <= i < x.len() implies base_name(#[trigger] x[i]) == base_name(y[i])
        && entry_digest(x[i]) == entry_digest(y[i]) by {}
    assert forall|i: int| 0 <= i < y.len() implies base_name(x[i]) == base_name(#[trigger] y[i])
        && entry_digest(x[i]) == entry_digest(y[i]) by {}
}

/// What an image is pulled by is the same in indexes that are alike, and whether it can be.
proof fn pulls_are_alike(a: JsonView, b: JsonView, name: Seq<char>, reference: Seq<char>)
    requires
        alike(a, b, depth_limit()),
    ensures
        can_pull(a, name, reference) == can_pull(b, name, reference),
        pulled_hash(a, name, reference) == pulled_hash(b, name, reference),
{
    lists_are_alike(a, b);
    let image = image_name(name, reference);
    let x = entries(a);
    let y = entries(b);
    assert forall|i: int| 0 <= i < y.len() implies base_name(x[i]) == base_name(#[trigger] y[i])
        && entry_digest(x[i]) == entry_digest(y[i]) by {}
    assert forall|at: int| is_last_for(x, image, at) == is_last_for(y, image, at) by {
        entries_stand_alike(a, b, image, at);
    }
    if exists|at: int| is_last_for(x, image, at) {
        let at = choose|at: int| is_last_for(x, image, at);
        assert(is_last_for(y, image, at));
        let other = choose|at: int| is_last_for(y, image, at);
        chosen_entries_are_one(y, image, at, other);
    } else {
        assert forall|at: int| !is_last_for(y, image, at) by {
            assert(!is_last_for(x, image, at));
        }
    }
}

/// What a probe for an image answers with is the same in indexes that are alike.
proof fn probes_are_alike(a: JsonView, b: JsonView, name: Seq<char>, reference: Seq<char>)
    requires
        alike(a, b, depth_limit()),
    ensures
        probed(a, name, reference) == probed(b, name, reference),
{
    lists_are_alike(a, b);
    let image = image_name(name, reference);
    let x = entries(a);
    let y = entries(b);
    assert forall|at: int|
        is_first_for(x, image, at) == is_first_for(y, image, at) && is_first_with(x, reference, at)
            == is_first_with(y, reference, at) by {
        entries_stand_alike(a, b, image, at);
        entries_stand_alike(a, b, reference, at);
    }
    if exists|at: int| is_first_for(x, image, at) {
        let at = choose|at: int| is_first_for(x, image, at);
        assert(is_first_for(y, image, at));
        let other = choose|at: int| is_first_for(y, image, at);
        chosen_entries_are_one(y, image, at, other);
    } else {
        assert forall|at: int| !is_first_for(y, image, at) by {
            assert(!is_first_for(x, image, at));
        }
    }
    if exists|at: int| is_first_with(x, reference, at) {
        let at = choose|at: int| is_first_with(x, reference, at);
        assert(is_first_with(y, reference, at));
        let other = choose|at: int| is_first_with(y, reference, at);
        assert(is_first_with(y, reference, other));
        assert(at == other);
    } else {
        assert forall|at: int| !is_first_with(y, reference, at) by {
            assert(!is_first_with(x, reference, at));
        }
    }
}

/// Indexes that are alike lead to the same manifests: each image can be pulled from both or from
/// none, and is pulled and probed alike. Both can take entries, or none can.
pub proof fn like_indexes_lead_alike(
    a: JsonView,
    b: JsonView,
    name: Seq<char>,
    reference: Seq<char>,
)
    requires
        alike(a, b, depth_limit()),
    ensures
        can_pull(a, name, reference) == can_pull(b, name, reference),
        pulled_hash(a, name, reference) == pulled_hash(b, name, reference),
        probed(a, name, reference) == probed(b, name, reference),
        can_push(a) == can_push(b),
        listed(a) is Some == listed(b) is Some,
        all_named(a) == all_named(b),
{
    pulls_are_alike(a, b, name, reference);
    probes_are_alike(a, b, name, reference);
    lists_are_alike(a, b);
    let x = entries(a);
    let y = entries(b);
    assert forall|i: int| 0 <= i < y.len() implies base_name(x[i]) == base_name(
        #[trigger] y[i],
    ) by {}
}

/// Of lists whose entries are alike, what is left without an image is alike.
proof fn others_are_alike(x: Seq<JsonView>, y: Seq<JsonView>, image: Seq<char>, depth: nat)
    requires
        depth > 2,
        x.len() == y.len(),
        forall|i: int| 0 <= i < x.len() ==> alike(#[trigger] x[i], #[trigger] y[i], depth),
    ensures
        others(x, image).len() == others(y, image).len(),
        forall|i: int|
            0 <= i < others(x, image).len() ==> alike(
                #[trigger] others(x, image)[i],
                #[trigger] others(y, image)[i],
                depth,
            ),
    decreases x.len(),
{
    reveal(Seq::filter);
    if x.len() > 0 {
        let n = x.len() - 1;
        assert(alike(x[n], y[n], depth));
        entries_say_the_same(x[n], y[n], depth);
        assert forall|i: int| 0 <= i < n implies alike(
            #[trigger] x.drop_last()[i],
            #[trigger] y.drop_last()[i],
            depth,
        ) by {
            assert(alike(x[i], y[i], depth));
        }
        others_are_alike(x.drop_last(), y.drop_last(), image, depth);
    }
}

/// An entry for an image nests three levels deep at most, and has integers only.
pub(crate) proof fn new_entry_is_shallow(
    media: Seq<char>,
    digest: Seq<char>,
    size: int,
    image: Seq<char>,
    depth: nat,
)
    requires
        depth > 2,
    ensures
        nests(new_entry(media, digest, size, image), depth),
        has_integers_only(new_entry(media, digest, size, image), depth),
{
    reveal_with_fuel(nests, 3);
    reveal_with_fuel(has_integers_only, 3);
}

/// Entering the same image into indexes that are alike leaves them alike.
pub proof fn entering_keeps_alike(a: JsonView, b: JsonView, image: Seq<char>, entry: JsonView)
    requires
        alike(a, b, depth_limit()),
        nests(entry, (depth_limit() - 2) as nat),
    ensures
        alike(with_entry(a, image, entry), with_entry(b, image, entry), depth_limit()),
{
    let limit = depth_limit();
    let list = (limit - 1) as nat;
    let under = (limit - 2) as nat;
    let key = "manifests"@;
    lists_are_alike(a, b);
    members_are_alike(a, b, limit, key);
    document_is_like_itself(entry, under);
    match (a, b) {
        (JsonView::Object(members), JsonView::Object(same)) => {
            assert(members.contains_key(key) == same.contains_key(key));
            if listed(a) is Some {
                let x = others(entries(a), image);
                let y = others(entries(b), image);
                others_are_alike(entries(a), entries(b), image, under);
                assert forall|i: int| 0 <= i < x.push(entry).len() implies alike(
                    #[trigger] x.push(entry)[i],
                    #[trigger] y.push(entry)[i],
                    under,
                ) by {
                    if i < x.len() {
                        assert(alike(x[i], y[i], under));
                    }
                }
                let left = JsonView::Array(x.push(entry));
                let right = JsonView::Array(y.push(entry));
                assert(alike(left, right, list));
                inserting_keeps_alike(a, b, key, left, right, limit);
            } else if !members.contains_key(key) {
                inserting_keeps_alike(a, b, key, JsonView::Null, JsonView::Null, limit);
            }
        },
        _ => {
            let empty = JsonView::Object(Map::<Seq<char>, JsonView>::empty());
            inserting_keeps_alike(empty, empty, key, JsonView::Null, JsonView::Null, limit);
        },
    }
}

/// Objects that are alike stay so with members that are.
proof fn inserting_keeps_alike(
    a: JsonView,
    b: JsonView,
    key: Seq<char>,
    left: JsonView,
    right: JsonView,
    depth: nat,
)
    requires
        depth > 0,
        a is Object,
        b is Object,
        alike(a, b, depth),
        alike(left, right, (depth - 1) as nat),
    ensures
        alike(
            JsonView::Object(a->Object_0.insert(key, left)),
            JsonView::Object(b->Object_0.insert(key, right)),
            depth,
        ),
{
    let under = (depth - 1) as nat;
    let members = a->Object_0;
    let same = b->Object_0;
    let x = members.insert(key, left);
    let y = same.insert(key, right);
    assert forall|k: Seq<char>| #[trigger] x.contains_key(k) == #[trigger] y.contains_key(k) by {
        assert(members.contains_key(k) == same.contains_key(k));
    }
    assert forall|k: Seq<char>| #[trigger] x.contains_key(k) implies alike(x[k], y[k], under) by {
        if k != key {
            assert(members.contains_key(k));
        }
    }
}

/// A list without an image has nothing to lose of it.
proof fn others_stay(list: Seq<JsonView>, image: Seq<char>)
    requires
        forall|i: int| 0 <= i < list.len() ==> base_name(#[trigger] list[i]) != Some(image),
    ensures
        others(list, image) == list,
    decreases list.len(),
{
    reveal(Seq::filter);
    if list.len() > 0 {
        assert(base_name(list[list.len() - 1]) != Some(image));
        assert forall|i: int| 0 <= i < list.len() - 1 implies base_name(
            #[trigger] list.drop_last()[i],
        ) != Some(image) by {
            assert(list.drop_last()[i] == list[i]);
        }
        others_stay(list.drop_last(), image);
        assert(list.drop_last().push(list.last()) =~= list);
    } else {
        assert(others(list, image) =~= list);
    }
}

/// Entering an image twice comes to the same as entering it once.
pub proof fn entering_twice_is_once(index: JsonView, image: Seq<char>, entry: JsonView)
    requires
        base_name(entry) == Some(image),
    ensures
        with_entry(with_entry(index, image, entry), image, entry) == with_entry(
            index,
            image,
            entry,
        ),
{
    let once = with_entry(index, image, entry);
    let twice = with_entry(once, image, entry);
    if listed(index) is Some {
        let kept = others(listed(index)->0, image);
        others_are_entries(listed(index)->0, image);
        others_stay(kept, image);
        assert(others(kept.push(entry), image) == kept) by {
            reveal(Seq::filter);
            assert(kept.push(entry).drop_last() =~= kept);
        }
        assert(twice->Object_0 =~= once->Object_0);
    }
}

/// An index that nests no deeper than the parser goes stays such, whatever image is entered.
pub proof fn entered_index_nests(
    index: JsonView,
    media: Seq<char>,
    digest: Seq<char>,
    size: int,
    image: Seq<char>,
)
    requires
        nests(index, depth_limit()),
    ensures
        nests(with_entry(index, image, new_entry(media, digest, size, image)), depth_limit()),
{
    let entry = new_entry(media, digest, size, image);
    let list = (depth_limit() - 1) as nat;
    let under = (depth_limit() - 2) as nat;
    new_entry_is_shallow(media, digest, size, image, under);
    if listed(index) is Some {
        let all = listed(index)->0;
        let kept = others(all, image);
        others_are_entries(all, image);
        assert(index->Object_0.contains_key("manifests"@));
        assert(nests(index->Object_0["manifests"@], list));
        assert forall|i: int| 0 <= i < kept.push(entry).len() implies nests(
            #[trigger] kept.push(entry)[i],
            under,
        ) by {
            if i < kept.len() {
                let j = choose|j: int| 0 <= j < all.len() && #[trigger] all[j] == kept[i];
                assert(nests(all[j], under));
            }
        }
        assert(nests(JsonView::Array(kept.push(entry)), list));
    } else {
        reveal_with_fuel(nests, 2);
    }
}

/// An index whose numbers are integers stays such, whatever image is entered.
pub proof fn entered_index_has_integers_only(
    index: JsonView,
    media: Seq<char>,
    digest: Seq<char>,
    size: int,
    image: Seq<char>,
)
    requires
        has_integers_only(index, depth_limit()),
    ensures
        has_integers_only(
            with_entry(index, image, new_entry(media, digest, size, image)),
            depth_limit(),
        ),
{
    let entry = new_entry(media, digest, size, image);
    let list = (depth_limit() - 1) as nat;
    let under = (depth_limit() - 2) as nat;
    new_entry_is_shallow(media, digest, size, image, under);
    if listed(index) is Some {
        let all = listed(index)->0;
        let kept = others(all, image);
        others_are_entries(all, image);
        assert(index->Object_0.contains_key("manifests"@));
        assert(has_integers_only(index->Object_0["manifests"@], list));
        assert forall|i: int| 0 <= i < kept.push(entry).len() implies has_integers_only(
            #[trigger] kept.push(entry)[i],
            under,
        ) by {
            if i < kept.len() {
                let j = choose|j: int| 0 <= j < all.len() && #[trigger] all[j] == kept[i];
                assert(has_integers_only(all[j], under));
            }
        }
        assert(has_integers_only(JsonView::Array(kept.push(entry)), list));
    } else {
        reveal_with_fuel(has_integers_only, 2);
    }
}

} // verus!
