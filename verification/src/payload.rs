//! The payload that the seed directory comes from: a tarball in parts, and the hash to hold it
//! against.
use crate::digest::{
    content_hash, hash_form_is_sixty_four_digits, hash_of, is_hash, is_hex_digit,
};
use crate::text::{chars_of, has_prefix, same_text, strip_prefix};
use vstd::prelude::*;
use vstd::seq_lib::to_multiset_build;

verus! {

/// Where the registry listens when it is not told.
pub const DEFAULT_ADDRESS: &'static str = "0.0.0.0:5000";

/// The file that the payload is put together in.
pub const PAYLOAD_FILE: &'static str = "payload.tar.gz";

/// What the name of a part of the payload begins with.
pub const PART_PREFIX: &'static str = "zarf-payload-";

/// What the program is started for: to serve what is in the seed directory, once the payload with
/// the hash has been unpacked there, or at once.
pub enum Startup<T> {
    Unpack { sha256: T, address: T },
    Serve { address: T },
}

impl View for Startup<String> {
    type V = Startup<Seq<char>>;

    open spec fn view(&self) -> Startup<Seq<char>> {
        match self {
            Startup::Unpack { sha256, address } => Startup::Unpack {
                sha256: sha256@,
                address: address@,
            },
            Startup::Serve { address } => Startup::Serve { address: address@ },
        }
    }
}

/// What the first argument of the program asks for: a hash is that of the payload, anything else
/// is the address to listen at.
pub open spec fn started_for(argument: Option<Seq<char>>) -> Startup<Seq<char>> {
    match argument {
        Some(text) => if is_hash(text) {
            Startup::Unpack { sha256: text, address: DEFAULT_ADDRESS@ }
        } else {
            Startup::Serve { address: text }
        },
        None => Startup::Serve { address: DEFAULT_ADDRESS@ },
    }
}

/// A part of the payload: the name of its file, and what is in it.
pub struct Part {
    pub name: String,
    pub content: Vec<u8>,
}

/// What a part is.
#[verifier::ext_equal]
pub struct PartView {
    pub name: Seq<char>,
    pub content: Seq<u8>,
}

impl View for Part {
    type V = PartView;

    open spec fn view(&self) -> PartView {
        PartView { name: self.name@, content: self.content@ }
    }
}

pub open spec fn part_views(parts: Seq<Part>) -> Seq<PartView> {
    parts.map_values(|part: Part| part@)
}

/// `a` does not come after `b`, letter by letter.
pub open spec fn not_after(a: Seq<char>, b: Seq<char>) -> bool
    decreases a.len(),
{
    a.len() == 0 || (b.len() > 0 && (a[0] < b[0] || (a[0] == b[0] && not_after(
        a.skip(1),
        b.skip(1),
    ))))
}

/// Parts in order with one more in its place: behind all that do not come after it.
pub open spec fn placed(parts: Seq<PartView>, part: PartView) -> Seq<PartView>
    decreases parts.len(),
{
    if parts.len() == 0 || not_after(parts.last().name, part.name) {
        parts.push(part)
    } else {
        placed(parts.drop_last(), part).push(parts.last())
    }
}

/// The parts in the order of their names.
pub open spec fn ordered(parts: Seq<PartView>) -> Seq<PartView>
    decreases parts.len(),
{
    if parts.len() == 0 {
        Seq::empty()
    } else {
        placed(ordered(parts.drop_last()), parts.last())
    }
}

/// What is in the parts, one behind the other.
pub open spec fn whole(parts: Seq<PartView>) -> Seq<u8>
    decreases parts.len(),
{
    if parts.len() == 0 {
        Seq::empty()
    } else {
        whole(parts.drop_last()) + parts.last().content
    }
}

/// The payload that the parts make, in the order of their names.
pub open spec fn payload_of(parts: Seq<PartView>) -> Seq<u8> {
    whole(ordered(parts))
}

/// Whether `text` has the form of a SHA-256 in hexadecimal.
fn looks_like_hash(text: &str) -> (hash: bool)
    ensures
        hash == is_hash(text@),
{
    let chars = chars_of(text);
    for i in 0..chars.len()
        invariant
            chars@ == text@,
            forall|j: int| 0 <= j < i ==> is_hex_digit(#[trigger] text@[j]),
    {
        let c = chars[i];
        if !(('0' <= c && c <= '9') || ('a' <= c && c <= 'f')) {
            assert(!is_hex_digit(text@[i as int]));
            return false;
        }
    }
    chars.len() == 64
}

/// What the program is started for, by its first argument.
pub fn startup(argument: Option<&str>) -> (start: Startup<String>)
    ensures
        start@ == started_for(
            match argument {
                Some(text) => Some(text@),
                None => None,
            },
        ),
{
    match argument {
        Some(text) => if looks_like_hash(text) {
            Startup::Unpack { sha256: text.to_owned(), address: DEFAULT_ADDRESS.to_owned() }
        } else {
            Startup::Serve { address: text.to_owned() }
        },
        None => Startup::Serve { address: DEFAULT_ADDRESS.to_owned() },
    }
}

/// Whether a file of this name is a part of the payload.
pub fn is_part(name: &str) -> (part: bool)
    ensures
        part == has_prefix(name@, PART_PREFIX@),
{
    strip_prefix(name, PART_PREFIX).is_some()
}

/// Whether `a` does not come after `b`.
fn comes_first(a: &str, b: &str) -> (first: bool)
    ensures
        first == not_after(a@, b@),
{
    let left = chars_of(a);
    let right = chars_of(b);
    let mut at: usize = 0;
    assert(a@.skip(0) =~= a@ && b@.skip(0) =~= b@);
    while at < left.len()
        invariant
            left@ == a@,
            right@ == b@,
            at <= left@.len(),
            at <= right@.len(),
            not_after(a@, b@) == not_after(a@.skip(at as int), b@.skip(at as int)),
        decreases left@.len() - at,
    {
        if at >= right.len() || left[at] > right[at] {
            return false;
        }
        if left[at] < right[at] {
            return true;
        }
        assert(a@.skip(at as int).skip(1) =~= a@.skip(at + 1));
        assert(b@.skip(at as int).skip(1) =~= b@.skip(at + 1));
        at = at + 1;
    }
    true
}

/// Puts a part in its place among others in order.
fn place(parts: &mut Vec<Part>, part: Part)
    ensures
        part_views(final(parts)@) == placed(part_views(old(parts)@), part@),
{
    let ghost all = part_views(parts@);
    let mut at: usize = parts.len();
    proof {
        assert(all.take(at as int) =~= all);
        assert(all.skip(at as int) =~= Seq::empty());
        assert(placed(all, part@) =~= placed(all, part@) + Seq::<PartView>::empty());
    }
    while at > 0 && !comes_first(parts[at - 1].name.as_str(), part.name.as_str())
        invariant
            at <= parts@.len(),
            all == part_views(parts@),
            placed(all, part@) == placed(all.take(at as int), part@) + all.skip(at as int),
        decreases at,
    {
        proof {
            let front = all.take(at as int);
            assert(front.drop_last() =~= all.take(at - 1));
            assert(front.last() == all[at - 1]);
            assert(placed(front, part@) == placed(front.drop_last(), part@).push(front.last()));
            assert(placed(front.drop_last(), part@).push(front.last()) + all.skip(at as int)
                =~= placed(front.drop_last(), part@) + all.skip(at - 1));
        }
        at = at - 1;
    }
    parts.insert(at, part);
    proof {
        assert(placed(all.take(at as int), part@) =~= all.take(at as int).push(part@));
        assert(part_views(parts@) =~= all.take(at as int).push(part@) + all.skip(at as int));
    }
}

/// Puts the parts of the payload together, in the order of their names, and holds the result against
/// the hash that it should have. Where that is another, the hash that it has is returned.
pub fn assemble(parts: Vec<Part>, sha256: &str) -> (payload: Result<Vec<u8>, String>)
    ensures
        match payload {
            Ok(bytes) => bytes@ == payload_of(part_views(parts@)) && hash_of(bytes@) == sha256@,
            Err(hash) => hash@ == hash_of(payload_of(part_views(parts@))) && hash@ != sha256@,
        },
{
    let ghost all = part_views(parts@);
    let mut order: Vec<Part> = Vec::new();
    assert(part_views(order@) =~= ordered(all.take(0)));
    for part in iter: parts
        invariant
            all == part_views(iter.seq()),
            part_views(order@) == ordered(all.take(iter.index() as int)),
    {
        assert(all.take(iter.index() + 1).drop_last() =~= all.take(iter.index() as int));
        assert(all.take(iter.index() + 1).last() == part@);
        place(&mut order, part);
    }
    assert(all.take(all.len() as int) =~= all);
    let ghost sorted = part_views(order@);
    let mut bytes: Vec<u8> = Vec::new();
    assert(sorted.take(0) =~= Seq::empty());
    for part in iter: order
        invariant
            sorted == part_views(iter.seq()),
            bytes@ == whole(sorted.take(iter.index() as int)),
    {
        assert(sorted.take(iter.index() + 1).drop_last() =~= sorted.take(iter.index() as int));
        assert(sorted.take(iter.index() + 1).last() == part@);
        let mut content = part.content;
        bytes.append(&mut content);
    }
    assert(sorted.take(sorted.len() as int) =~= sorted);
    let hash = content_hash(bytes.as_slice());
    if same_text(hash.as_str(), sha256) {
        Ok(bytes)
    } else {
        Err(hash)
    }
}

/// Of two names one does not come after the other.
proof fn names_are_ordered(a: Seq<char>, b: Seq<char>)
    ensures
        not_after(a, b) || not_after(b, a),
    decreases a.len(),
{
    if a.len() > 0 && b.len() > 0 {
        names_are_ordered(a.skip(1), b.skip(1));
    }
}

/// The order of names passes on.
proof fn order_passes_on(a: Seq<char>, b: Seq<char>, c: Seq<char>)
    requires
        not_after(a, b),
        not_after(b, c),
    ensures
        not_after(a, c),
    decreases a.len(),
{
    if a.len() > 0 && a[0] == b[0] && b[0] == c[0] {
        order_passes_on(a.skip(1), b.skip(1), c.skip(1));
    }
}

/// No part comes before one with an earlier name.
pub open spec fn is_ordered(parts: Seq<PartView>) -> bool {
    forall|i: int, j: int|
        0 <= i < j < parts.len() ==> not_after(#[trigger] parts[i].name, #[trigger] parts[j].name)
}

/// A part put in its place leaves the others, and their order, as they are.
proof fn placing_keeps_order(parts: Seq<PartView>, part: PartView)
    requires
        is_ordered(parts),
    ensures
        is_ordered(placed(parts, part)),
        placed(parts, part).to_multiset() == parts.to_multiset().insert(part),
    decreases parts.len(),
{
    if parts.len() == 0 || not_after(parts.last().name, part.name) {
        let all = parts.push(part);
        to_multiset_build(parts, part);
        assert forall|i: int, j: int| 0 <= i < j < all.len() implies not_after(
            #[trigger] all[i].name,
            #[trigger] all[j].name,
        ) by {
            if j == parts.len() && i < parts.len() - 1 {
                order_passes_on(parts[i].name, parts.last().name, part.name);
            }
        }
    } else {
        let front = placed(parts.drop_last(), part);
        let all = front.push(parts.last());
        placing_keeps_order(parts.drop_last(), part);
        names_are_ordered(parts.last().name, part.name);
        to_multiset_build(front, parts.last());
        to_multiset_build(parts.drop_last(), parts.last());
        assert(parts.drop_last().push(parts.last()) =~= parts);
        assert(all.to_multiset() =~= parts.to_multiset().insert(part));
        assert forall|i: int, j: int| 0 <= i < j < all.len() implies not_after(
            #[trigger] all[i].name,
            #[trigger] all[j].name,
        ) by {
            if j == front.len() {
                front_is_known(parts.drop_last(), part, i);
            }
        }
    }
}

/// What is among the parts once one was put in its place: that one, or what was there.
proof fn front_is_known(parts: Seq<PartView>, part: PartView, i: int)
    requires
        0 <= i < placed(parts, part).len(),
    ensures
        placed(parts, part)[i] == part || exists|k: int|
            0 <= k < parts.len() && #[trigger] parts[k] == placed(parts, part)[i],
    decreases parts.len(),
{
    if parts.len() == 0 || not_after(parts.last().name, part.name) {
        if i < parts.len() {
            assert(parts[i] == placed(parts, part)[i]);
        }
    } else {
        let front = placed(parts.drop_last(), part);
        if i < front.len() {
            front_is_known(parts.drop_last(), part, i);
            if front[i] != part {
                let k = choose|k: int|
                    0 <= k < parts.drop_last().len() && #[trigger] parts.drop_last()[k]
                        == front[i];
                assert(parts[k] == front[i]);
            }
        } else {
            assert(parts[parts.len() - 1] == placed(parts, part)[i]);
        }
    }
}

/// The payload is made of the parts that there are, each as often as it is there, and in the order
/// of their names.
pub proof fn parts_are_ordered(parts: Seq<PartView>)
    ensures
        is_ordered(ordered(parts)),
        ordered(parts).to_multiset() == parts.to_multiset(),
    decreases parts.len(),
{
    if parts.len() > 0 {
        parts_are_ordered(parts.drop_last());
        placing_keeps_order(ordered(parts.drop_last()), parts.last());
        to_multiset_build(parts.drop_last(), parts.last());
        assert(parts.drop_last().push(parts.last()) =~= parts);
    } else {
        assert(parts =~= Seq::empty());
    }
}

/// Names neither of which comes after the other are the same.
proof fn order_tells_names_apart(a: Seq<char>, b: Seq<char>)
    requires
        not_after(a, b),
        not_after(b, a),
    ensures
        a == b,
    decreases a.len(),
{
    if a.len() > 0 {
        order_tells_names_apart(a.skip(1), b.skip(1));
        assert(a =~= seq![a[0]] + a.skip(1));
        assert(b =~= seq![b[0]] + b.skip(1));
    } else {
        assert(a =~= b);
    }
}

/// Parts of one name are the same part.
pub open spec fn names_tell_parts(parts: Seq<PartView>) -> bool {
    forall|a: PartView, b: PartView|
        #[trigger] parts.to_multiset().contains(a) && #[trigger] parts.to_multiset().contains(b)
            && a.name == b.name ==> a == b
}

/// The same parts can be put in order in one way only.
proof fn order_is_unique(parts: Seq<PartView>, others: Seq<PartView>)
    requires
        is_ordered(parts),
        is_ordered(others),
        names_tell_parts(parts),
        parts.to_multiset() == others.to_multiset(),
    ensures
        parts == others,
    decreases parts.len(),
{
    parts.to_multiset_ensures();
    others.to_multiset_ensures();
    if parts.len() > 0 {
        let a = parts.last();
        let b = others.last();
        assert(parts[parts.len() - 1] == a && others[others.len() - 1] == b);
        assert(parts.to_multiset().count(a) > 0 && others.to_multiset().count(b) > 0);
        assert(others.contains(a) && parts.contains(b));
        let i = choose|i: int| 0 <= i < parts.len() && parts[i] == b;
        let j = choose|j: int| 0 <= j < others.len() && others[j] == a;
        names_are_ordered(a.name, a.name);
        names_are_ordered(b.name, b.name);
        assert(not_after(b.name, a.name));
        assert(not_after(a.name, b.name));
        order_tells_names_apart(a.name, b.name);
        assert(parts.to_multiset().contains(a) && parts.to_multiset().contains(b));
        to_multiset_build(parts.drop_last(), a);
        to_multiset_build(others.drop_last(), a);
        assert(parts.drop_last().push(a) =~= parts);
        assert(others.drop_last().push(a) =~= others);
        assert(parts.drop_last().to_multiset() =~= parts.to_multiset().remove(a));
        assert(others.drop_last().to_multiset() =~= others.to_multiset().remove(a));
        assert forall|c: PartView, d: PartView|
            #[trigger] parts.drop_last().to_multiset().contains(c)
                && #[trigger] parts.drop_last().to_multiset().contains(d) && c.name
                == d.name implies c == d by {
            assert(parts.to_multiset().contains(c) && parts.to_multiset().contains(d));
        }
        order_is_unique(parts.drop_last(), others.drop_last());
    } else {
        assert(parts =~= others);
    }
}

/// In which order the parts are read makes no difference, as long as parts of one name are the same
/// part.
pub proof fn reading_order_is_free(parts: Seq<PartView>, others: Seq<PartView>)
    requires
        names_tell_parts(parts),
        parts.to_multiset() == others.to_multiset(),
    ensures
        payload_of(parts) == payload_of(others),
{
    parts_are_ordered(parts);
    parts_are_ordered(others);
    order_is_unique(ordered(parts), ordered(others));
}

/// A payload that was cut into parts in the order of their names is put together again, in whichever
/// order the parts are read, as long as parts of one name are the same part.
pub proof fn cut_payload_is_restored(cut: Seq<PartView>, parts: Seq<PartView>)
    requires
        is_ordered(cut),
        names_tell_parts(cut),
        parts.to_multiset() == cut.to_multiset(),
    ensures
        payload_of(parts) == whole(cut),
{
    parts_are_ordered(parts);
    order_is_unique(cut, ordered(parts));
}

/// Names are ordered as in a dictionary, from the front: a name comes before those that it begins,
/// and of two names that part ways the one with the lower character there comes first.
pub proof fn names_part_ways_at_the_front(
    front: Seq<char>,
    low: char,
    high: char,
    rest: Seq<char>,
    other: Seq<char>,
)
    requires
        low < high,
    ensures
        not_after(front, front + rest),
        rest.len() > 0 ==> !not_after(front + rest, front),
        not_after(front + seq![low] + rest, front + seq![high] + other),
        !not_after(front + seq![high] + other, front + seq![low] + rest),
    decreases front.len(),
{
    let a = front + seq![low] + rest;
    let b = front + seq![high] + other;
    if front.len() > 0 {
        let short = front.skip(1);
        names_part_ways_at_the_front(short, low, high, rest, other);
        assert((front + rest).skip(1) =~= short + rest);
        assert(a.skip(1) =~= short + seq![low] + rest);
        assert(b.skip(1) =~= short + seq![high] + other);
        assert(a[0] == front[0] && b[0] == front[0] && (front + rest)[0] == front[0]);
    } else {
        assert(a[0] == low && b[0] == high);
        assert(front + rest =~= rest);
    }
}

/// What is in parts, one behind the other, is all that is in them, in that order.
proof fn whole_is_flat(parts: Seq<PartView>)
    ensures
        whole(parts) == parts.map_values(|part: PartView| part.content).flatten(),
    decreases parts.len(),
{
    let contents = parts.map_values(|part: PartView| part.content);
    if parts.len() > 0 {
        let front = parts.drop_last().map_values(|part: PartView| part.content);
        whole_is_flat(parts.drop_last());
        front.lemma_flatten_push(parts.last().content);
        assert(contents =~= front.push(parts.last().content));
    } else {
        assert(contents =~= Seq::empty());
        assert(whole(parts) =~= contents.flatten());
    }
}

/// The payload is what is in the parts, one behind the other in the order of their names, in
/// whichever order they are read: `order` has the same parts, and the name of each comes before the
/// names of those behind it.
pub proof fn payload_joins_the_parts(parts: Seq<PartView>, order: Seq<PartView>)
    requires
        parts.to_multiset() == order.to_multiset(),
        forall|i: int, j: int|
            0 <= i < j < order.len() ==> #[trigger] order[i].name != #[trigger] order[j].name
                && not_after(order[i].name, order[j].name),
    ensures
        payload_of(parts) == order.map_values(|part: PartView| part.content).flatten(),
{
    order.to_multiset_ensures();
    assert forall|a: PartView, b: PartView|
        #[trigger] order.to_multiset().contains(a) && #[trigger] order.to_multiset().contains(b)
            && a.name == b.name implies a == b by {
        assert(order.to_multiset().count(a) > 0 && order.to_multiset().count(b) > 0);
        assert(order.contains(a) && order.contains(b));
        let i = choose|i: int| 0 <= i < order.len() && order[i] == a;
        let j = choose|j: int| 0 <= j < order.len() && order[j] == b;
        assert(order[i].name == order[j].name);
        if i < j {
            assert(order[i].name != order[j].name);
        } else if j < i {
            assert(order[j].name != order[i].name);
        }
    }
    cut_payload_is_restored(order, parts);
    whole_is_flat(order);
}

/// The program unpacks just where its argument is sixty-four hexadecimal digits, and then it takes
/// the argument for the hash; any other argument is where it listens, and without one it listens at
/// port 5000 of every address.
pub proof fn argument_is_hash_or_address(argument: Seq<char>)
    ensures
        started_for(None) == (Startup::Serve { address: "0.0.0.0:5000"@ }),
        argument.len() == 64 && (forall|i: int|
            0 <= i < argument.len() ==> "0123456789abcdef"@.contains(#[trigger] argument[i]))
            ==> started_for(Some(argument)) == (Startup::Unpack {
            sha256: argument,
            address: "0.0.0.0:5000"@,
        }),
        !(argument.len() == 64 && (forall|i: int|
            0 <= i < argument.len() ==> "0123456789abcdef"@.contains(#[trigger] argument[i])))
            ==> started_for(Some(argument)) == (Startup::Serve { address: argument }),
{
    hash_form_is_sixty_four_digits(argument);
}

/// A part is what it holds, and what the program is started for is what it says.
pub proof fn parts_say_what_they_hold(parts: Seq<Part>, i: int, sha256: String, address: String)
    ensures
        part_views(parts).len() == parts.len(),
        0 <= i < parts.len() ==> part_views(parts)[i].name == parts[i].name@
            && part_views(parts)[i].content == parts[i].content@,
        (Startup::Unpack { sha256, address })@ == (Startup::Unpack {
            sha256: sha256@,
            address: address@,
        }),
        (Startup::<String>::Serve { address })@ == (Startup::Serve { address: address@ }),
{
}

} // verus!
