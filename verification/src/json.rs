//! JSON documents: the values the registry reads and edits, and the `serde_json` calls that
//! read them from bytes and write them out as text.
use crate::text::same_text;
use vstd::prelude::*;
use vstd::utf8::encode_utf8;

verus! {

/// The parsed document type of `serde_json`.
#[verifier::external_type_specification]
#[verifier::external_body]
pub struct ExValue(serde_json::Value);

/// The number type of `serde_json`.
#[verifier::external_type_specification]
#[verifier::external_body]
pub struct ExNumber(serde_json::Number);

/// A JSON document.
pub enum Json {
    Null,
    Bool(bool),
    Unsigned(u64),
    Signed(i64),
    /// A number that is carried as it was read: one that is no integer of 64 bits.
    Float(serde_json::Number),
    Text(String),
    Array(Vec<Json>),
    /// Where a key occurs twice, the later pair counts.
    Object(Vec<(String, Json)>),
}

/// What a JSON document says.
#[verifier::ext_equal]
pub enum JsonView {
    Null,
    Bool(bool),
    Integer(int),
    Float(serde_json::Number),
    Text(Seq<char>),
    Array(Seq<JsonView>),
    Object(Map<Seq<char>, JsonView>),
}

impl View for Json {
    type V = JsonView;

    open spec fn view(&self) -> JsonView
        decreases self,
    {
        match self {
            Json::Null => JsonView::Null,
            Json::Bool(b) => JsonView::Bool(*b),
            Json::Unsigned(n) => JsonView::Integer(*n as int),
            Json::Signed(n) => JsonView::Integer(*n as int),
            Json::Float(n) => number_view(*n),
            Json::Text(s) => JsonView::Text(s@),
            Json::Array(items) => JsonView::Array(array_view(items@)),
            Json::Object(pairs) => JsonView::Object(object_view(pairs@)),
        }
    }
}

pub open spec fn array_view(items: Seq<Json>) -> Seq<JsonView>
    decreases items,
{
    Seq::new(
        items.len(),
        |i: int|
            if 0 <= i < items.len() {
                items[i]@
            } else {
                JsonView::Null
            },
    )
}

pub open spec fn object_view(pairs: Seq<(String, Json)>) -> Map<Seq<char>, JsonView>
    decreases pairs, pairs.len(),
{
    if pairs.len() == 0 {
        Map::empty()
    } else {
        object_view(pairs.drop_last()).insert(pairs.last().0@, pairs.last().1@)
    }
}

/// The integer of 64 bits that a number is, where it is one.
pub uninterp spec fn integer_of(number: serde_json::Number) -> Option<int>;

/// What a number says.
pub open spec fn number_view(number: serde_json::Number) -> JsonView {
    match integer_of(number) {
        Some(n) => JsonView::Integer(n),
        None => JsonView::Float(number),
    }
}

/// What a parsed document holds.
pub uninterp spec fn value_of(value: serde_json::Value) -> JsonView;

/// What `serde_json` reads from `bytes`: nothing where they are no JSON document.
pub uninterp spec fn parsed(bytes: Seq<u8>) -> Option<JsonView>;

/// One layer of a parsed document: a leaf, or the documents it is made of.
pub enum Layer {
    Null,
    Bool(bool),
    Unsigned(u64),
    Signed(i64),
    Float(serde_json::Number),
    Text(String),
    Array(Vec<serde_json::Value>),
    Object(Vec<(String, serde_json::Value)>),
}

/// What the pairs say, where each value is a parsed document.
pub open spec fn members_of(pairs: Seq<(String, serde_json::Value)>) -> Map<Seq<char>, JsonView>
    decreases pairs.len(),
{
    if pairs.len() == 0 {
        Map::empty()
    } else {
        members_of(pairs.drop_last()).insert(pairs.last().0@, value_of(pairs.last().1))
    }
}

pub open spec fn distinct_keys(pairs: Seq<(String, serde_json::Value)>) -> bool {
    forall|i: int, j: int| 0 <= i < j < pairs.len() ==> pairs[i].0@ != pairs[j].0@
}

proof fn member_is_held(pairs: Seq<(String, serde_json::Value)>, i: int)
    requires
        distinct_keys(pairs),
        0 <= i < pairs.len(),
    ensures
        members_of(pairs).contains_key(pairs[i].0@),
        members_of(pairs)[pairs[i].0@] == value_of(pairs[i].1),
    decreases pairs.len(),
{
    if i < pairs.len() - 1 {
        assert forall|a: int, b: int| 0 <= a < b < pairs.drop_last().len() implies
            pairs.drop_last()[a].0@ != pairs.drop_last()[b].0@ by {
            assert(pairs[a].0@ != pairs[b].0@);
        }
        member_is_held(pairs.drop_last(), i);
        assert(pairs[i].0@ != pairs[pairs.len() - 1].0@);
    }
}

proof fn members_are_finite(pairs: Seq<(String, serde_json::Value)>)
    ensures
        members_of(pairs).dom().finite(),
    decreases pairs.len(),
{
    if pairs.len() > 0 {
        members_are_finite(pairs.drop_last());
    }
}

impl View for Layer {
    type V = JsonView;

    open spec fn view(&self) -> JsonView {
        match self {
            Layer::Null => JsonView::Null,
            Layer::Bool(b) => JsonView::Bool(*b),
            Layer::Unsigned(n) => JsonView::Integer(*n as int),
            Layer::Signed(n) => JsonView::Integer(*n as int),
            Layer::Float(n) => number_view(*n),
            Layer::Text(s) => JsonView::Text(s@),
            Layer::Array(items) => JsonView::Array(
                Seq::new(items@.len(), |i: int| value_of(items@[i])),
            ),
            Layer::Object(pairs) => JsonView::Object(members_of(pairs@)),
        }
    }
}

/// Calls `serde_json::from_slice` for a `serde_json::Value`. Which document it reads, or that it
/// reads none, depends on the bytes alone. A document that is nested deeper than the parser goes is
/// not read.
#[verifier::external_body]
fn from_slice(bytes: &[u8]) -> (value: Option<serde_json::Value>)
    ensures
        match value {
            Some(v) => parsed(bytes@) == Some(value_of(v)) && nests(value_of(v), depth_limit()),
            None => parsed(bytes@) is None,
        },
{
    serde_json::from_slice(bytes).ok()
}

/// Takes a parsed document apart, by the variants of `serde_json::Value`: what it holds is what
/// the variant and its parts say. A number is the integer that `serde_json::Number::as_u64` or
/// `as_i64` gives, where one of them does. A `serde_json::Map` hands out each of its keys once.
#[verifier::external_body]
fn unpack(value: serde_json::Value) -> (layer: Layer)
    ensures
        layer@ == value_of(value),
        layer matches Layer::Float(number) ==> integer_of(number) is None,
        layer matches Layer::Object(pairs) ==> distinct_keys(pairs@),
{
    match value {
        serde_json::Value::Null => Layer::Null,
        serde_json::Value::Bool(b) => Layer::Bool(b),
        serde_json::Value::Number(n) => match (n.as_u64(), n.as_i64()) {
            (Some(unsigned), _) => Layer::Unsigned(unsigned),
            (None, Some(signed)) => Layer::Signed(signed),
            (None, None) => Layer::Float(n),
        },
        serde_json::Value::String(s) => Layer::Text(s),
        serde_json::Value::Array(items) => Layer::Array(items),
        serde_json::Value::Object(map) => Layer::Object(map.into_iter().collect()),
    }
}

/// The document that was parsed.
fn json_of(value: serde_json::Value) -> (json: Json)
    ensures
        json@ == value_of(value),
    decreases value_of(value),
{
    match unpack(value) {
        Layer::Null => Json::Null,
        Layer::Bool(b) => Json::Bool(b),
        Layer::Unsigned(n) => Json::Unsigned(n),
        Layer::Signed(n) => Json::Signed(n),
        Layer::Float(n) => Json::Float(n),
        Layer::Text(s) => Json::Text(s),
        Layer::Array(items) => {
            let ghost all = items@;
            let mut list: Vec<Json> = Vec::new();
            for item in iter: items
                invariant
                    iter.seq() == all,
                    list@.len() == iter.index(),
                    forall|i: int| 0 <= i < list@.len() ==> (#[trigger] list@[i])@ == value_of(all[i]),
                    value_of(value) == JsonView::Array(Seq::new(all.len(), |i: int| value_of(all[i]))),
            {
                proof {
                    let views = value_of(value)->Array_0;
                    assert(views[iter.index() as int] == value_of(item));
                    assert(decreases_to!(views => views[iter.index() as int]));
                }
                list.push(json_of(item));
            }
            let json = Json::Array(list);
            assert(array_view(json->Array_0@) =~= value_of(value)->Array_0);
            json
        },
        Layer::Object(pairs) => {
            let ghost all = pairs@;
            let mut list: Vec<(String, Json)> = Vec::new();
            for pair in iter: pairs
                invariant
                    iter.seq() == all,
                    list@.len() == iter.index(),
                    object_view(list@) == members_of(all.take(iter.index() as int)),
                    value_of(value) == JsonView::Object(members_of(all)),
                    distinct_keys(all),
            {
                proof {
                    let members = value_of(value)->Object_0;
                    member_is_held(all, iter.index() as int);
                    members_are_finite(all);
                    assert(decreases_to!(members => members[pair.0@]));
                    assert(all.take(iter.index() + 1).drop_last() == all.take(iter.index() as int));
                }
                let (key, member) = pair;
                let json = json_of(member);
                let ghost before = list@;
                list.push((key, json));
                proof {
                    assert(list@.drop_last() == before);
                }
            }
            proof {
                assert(all.take(all.len() as int) == all);
            }
            Json::Object(list)
        },
    }
}

/// What `serde_json` writes for a document, indented.
pub uninterp spec fn rendered(json: JsonView) -> Seq<char>;

/// The document nests at most `depth` levels deep.
pub open spec fn nests(json: JsonView, depth: nat) -> bool
    decreases depth,
{
    match json {
        JsonView::Array(items) => depth > 0 && forall|i: int|
            0 <= i < items.len() ==> nests(#[trigger] items[i], (depth - 1) as nat),
        JsonView::Object(members) => depth > 0 && forall|key: Seq<char>| #[trigger]
            members.contains_key(key) ==> nests(members[key], (depth - 1) as nat),
        _ => true,
    }
}

/// The documents nest at most `depth` levels deep, and are the same but for their numbers other than
/// integers: where one has such a number, the other has one too.
pub open spec fn alike(a: JsonView, b: JsonView, depth: nat) -> bool
    decreases depth,
{
    match (a, b) {
        (JsonView::Float(_), JsonView::Float(_)) => true,
        (JsonView::Array(items), JsonView::Array(others)) => {
            &&& depth > 0
            &&& items.len() == others.len()
            &&& forall|i: int|
                0 <= i < items.len() ==> alike(
                    #[trigger] items[i],
                    #[trigger] others[i],
                    (depth - 1) as nat,
                )
        },
        (JsonView::Object(members), JsonView::Object(others)) => {
            &&& depth > 0
            &&& forall|key: Seq<char>|
                #[trigger] members.contains_key(key) == #[trigger] others.contains_key(key)
            &&& forall|key: Seq<char>| #[trigger]
                members.contains_key(key) ==> alike(
                    members[key],
                    others[key],
                    (depth - 1) as nat,
                )
        },
        (JsonView::Array(_) | JsonView::Object(_), _) => false,
        _ => a == b,
    }
}

/// The document nests at most `depth` levels deep, and all its numbers are integers.
pub open spec fn has_integers_only(json: JsonView, depth: nat) -> bool
    decreases depth,
{
    match json {
        JsonView::Float(_) => false,
        JsonView::Array(items) => depth > 0 && forall|i: int|
            0 <= i < items.len() ==> has_integers_only(#[trigger] items[i], (depth - 1) as nat),
        JsonView::Object(members) => depth > 0 && forall|key: Seq<char>| #[trigger]
            members.contains_key(key) ==> has_integers_only(members[key], (depth - 1) as nat),
        _ => true,
    }
}

/// The levels of nesting that `serde_json` reads.
pub open spec fn depth_limit() -> nat {
    127
}

/// The text is read as the document, but for its numbers other than integers: each is read as such
/// a number.
pub open spec fn reads_as(text: Seq<char>, json: JsonView) -> bool {
    match parsed(encode_utf8(text)) {
        Some(read) => alike(read, json, depth_limit()),
        None => false,
    }
}

/// What is written for the document is read back as the document, but for its numbers other than
/// integers.
pub open spec fn is_kept(json: JsonView) -> bool {
    reads_as(rendered(json), json)
}

/// The document that is read back of what is written for one.
pub open spec fn reread(json: JsonView) -> JsonView {
    parsed(encode_utf8(rendered(json)))->0
}

/// A document whose numbers are integers has no other like it: being kept, it is read back as it
/// was.
pub proof fn integers_are_kept(a: JsonView, b: JsonView, depth: nat)
    requires
        alike(a, b, depth),
        has_integers_only(b, depth),
    ensures
        a == b,
    decreases depth,
{
    match (a, b) {
        (JsonView::Array(items), JsonView::Array(others)) => {
            assert forall|i: int| 0 <= i < items.len() implies items[i] == others[i] by {
                assert(alike(items[i], others[i], (depth - 1) as nat));
                integers_are_kept(items[i], others[i], (depth - 1) as nat);
            }
            assert(items =~= others);
        },
        (JsonView::Object(members), JsonView::Object(others)) => {
            assert forall|key: Seq<char>| members.contains_key(key) implies members[key]
                == others[key] by {
                assert(others.contains_key(key));
                integers_are_kept(members[key], others[key], (depth - 1) as nat);
            }
            assert(members =~= others);
        },
        _ => {},
    }
}

/// Puts a document together, by the variants of `serde_json::Value`: what it holds is what the
/// variant and its parts say. A `serde_json::Number` is made from an integer as it is. A
/// `serde_json::Map` is collected from pairs no two of which have the same key.
#[verifier::external_body]
fn pack(layer: Layer) -> (value: serde_json::Value)
    requires
        layer matches Layer::Object(pairs) ==> distinct_keys(pairs@),
    ensures
        value_of(value) == layer@,
{
    match layer {
        Layer::Null => serde_json::Value::Null,
        Layer::Bool(b) => serde_json::Value::Bool(b),
        Layer::Unsigned(n) => serde_json::Value::Number(n.into()),
        Layer::Signed(n) => serde_json::Value::Number(n.into()),
        Layer::Float(n) => serde_json::Value::Number(n),
        Layer::Text(s) => serde_json::Value::String(s),
        Layer::Array(items) => serde_json::Value::Array(items),
        Layer::Object(pairs) => serde_json::Value::Object(pairs.into_iter().collect()),
    }
}

/// Calls `serde_json::to_string_pretty`, which does not fail on a `serde_json::Value`. What it
/// writes depends on what the document holds alone, since its objects are ordered by their keys.
/// It is read back as the same document, where it is nested no deeper than the parser goes, but for
/// its numbers other than integers: each is written with a point or an exponent, and read back as
/// such a number. Which number that is, is not said: without the feature `float_roundtrip` the last
/// digit may differ.
#[verifier::external_body]
fn to_string_pretty(value: &serde_json::Value) -> (text: String)
    ensures
        text@ == rendered(value_of(*value)),
        nests(value_of(*value), depth_limit()) ==> reads_as(text@, value_of(*value)),
{
    serde_json::to_string_pretty(value).unwrap()
}

/// Whether one of the pairs has `key`.
fn holds_key(pairs: &Vec<(String, serde_json::Value)>, key: &str) -> (held: bool)
    ensures
        held == members_of(pairs@).contains_key(key@),
{
    assert(pairs@.take(0) =~= Seq::empty());
    for i in 0..pairs.len()
        invariant
            !members_of(pairs@.take(i as int)).contains_key(key@),
    {
        assert(pairs@.take(i + 1).drop_last() =~= pairs@.take(i as int));
        if same_text(pairs[i].0.as_str(), key) {
            proof {
                key_stays(pairs@, i + 1, key@);
            }
            return true;
        }
    }
    assert(pairs@.take(pairs@.len() as int) =~= pairs@);
    false
}

/// A key that is among the first pairs is among all of them.
proof fn key_stays(pairs: Seq<(String, serde_json::Value)>, n: int, key: Seq<char>)
    requires
        0 <= n <= pairs.len(),
        members_of(pairs.take(n)).contains_key(key),
    ensures
        members_of(pairs).contains_key(key),
    decreases pairs.len() - n,
{
    if n < pairs.len() {
        assert(pairs.take(n + 1).drop_last() =~= pairs.take(n));
        key_stays(pairs, n + 1, key);
    } else {
        assert(pairs.take(n) =~= pairs);
    }
}

/// A pair with a new key leaves the keys distinct.
proof fn new_key_is_distinct(
    pairs: Seq<(String, serde_json::Value)>,
    pair: (String, serde_json::Value),
)
    requires
        distinct_keys(pairs),
        !members_of(pairs).contains_key(pair.0@),
    ensures
        distinct_keys(pairs.push(pair)),
{
    let all = pairs.push(pair);
    assert forall|i: int, j: int| 0 <= i < j < all.len() implies all[i].0@ != all[j].0@ by {
        if j < pairs.len() {
            assert(pairs[i].0@ != pairs[j].0@);
        } else {
            member_is_held(pairs, i);
        }
    }
}

/// The document to be written. Of the pairs with one key the last counts, and the others are left
/// out.
fn value_from(json: Json) -> (value: serde_json::Value)
    ensures
        value_of(value) == json@,
    decreases json,
{
    match json {
        Json::Null => pack(Layer::Null),
        Json::Bool(b) => pack(Layer::Bool(b)),
        Json::Unsigned(n) => pack(Layer::Unsigned(n)),
        Json::Signed(n) => pack(Layer::Signed(n)),
        Json::Float(n) => pack(Layer::Float(n)),
        Json::Text(s) => pack(Layer::Text(s)),
        Json::Array(items) => {
            let ghost all = items@;
            let mut list: Vec<serde_json::Value> = Vec::new();
            for item in iter: items
                invariant
                    iter.seq() == all,
                    all == json->Array_0@,
                    json is Array,
                    list@.len() == iter.index(),
                    forall|i: int| 0 <= i < list@.len() ==> value_of(#[trigger] list@[i]) == all[i]@,
            {
                proof {
                    assert(decreases_to!(json->Array_0@ => json->Array_0@[iter.index() as int]));
                    assert(decreases_to!(json->Array_0 => json->Array_0@));
                    assert(decreases_to!(json => json->Array_0));
                }
                list.push(value_from(item));
            }
            let layer = Layer::Array(list);
            assert(layer@->Array_0 =~= array_view(all));
            pack(layer)
        },
        Json::Object(pairs) => {
            let ghost all = pairs@;
            let mut rest = pairs;
            let mut list: Vec<(String, serde_json::Value)> = Vec::new();
            assert(object_view(all) =~= object_view(rest@).union_prefer_right(members_of(list@)));
            while rest.len() > 0
                invariant
                    all == json->Object_0@,
                    json is Object,
                    rest@.len() <= all.len(),
                    rest@ == all.take(rest@.len() as int),
                    distinct_keys(list@),
                    object_view(all) == object_view(rest@).union_prefer_right(members_of(list@)),
                decreases rest@.len(),
            {
                let ghost before = rest@;
                let ghost at = rest@.len() - 1;
                let (key, member) = rest.pop().unwrap();
                proof {
                    assert(before.drop_last() =~= rest@);
                    assert(before.last() == all[at]);
                    assert(object_view(before) == object_view(rest@).insert(key@, member@));
                    assert(decreases_to!(json->Object_0@[at] => json->Object_0@[at].1));
                    assert(decreases_to!(json->Object_0@ => json->Object_0@[at]));
                    assert(decreases_to!(json->Object_0 => json->Object_0@));
                    assert(decreases_to!(json => json->Object_0));
                    assert(rest@ =~= all.take(at));
                }
                if holds_key(&list, key.as_str()) {
                    assert(object_view(all) =~= object_view(rest@).union_prefer_right(
                        members_of(list@),
                    ));
                } else {
                    let ghost kept = list@;
                    let value = value_from(member);
                    list.push((key, value));
                    proof {
                        assert(list@.drop_last() =~= kept);
                        new_key_is_distinct(kept, list@.last());
                        assert(object_view(all) =~= object_view(rest@).union_prefer_right(
                            members_of(list@),
                        ));
                    }
                }
            }
            assert(object_view(all) =~= members_of(list@)) by {
                assert(rest@ =~= Seq::empty());
            }
            pack(Layer::Object(list))
        },
    }
}

impl JsonView {
    /// The member under `key`: null where there is none, or where this is no object.
    pub open spec fn member(self, key: Seq<char>) -> JsonView {
        match self {
            JsonView::Object(members) => if members.contains_key(key) {
                members[key]
            } else {
                JsonView::Null
            },
            _ => JsonView::Null,
        }
    }

    /// The text, where this is one.
    pub open spec fn text(self) -> Option<Seq<char>> {
        match self {
            JsonView::Text(text) => Some(text),
            _ => None,
        }
    }

    /// The items, where this is an array.
    pub open spec fn items(self) -> Option<Seq<JsonView>> {
        match self {
            JsonView::Array(items) => Some(items),
            _ => None,
        }
    }
}

impl Json {
    /// Reads a document: nothing where `bytes` are no JSON, or nested deeper than the parser goes.
    pub fn parse(bytes: &[u8]) -> (json: Option<Json>)
        ensures
            match json {
                Some(json) => parsed(bytes@) == Some(json@) && nests(json@, depth_limit()),
                None => parsed(bytes@) is None,
            },
    {
        match from_slice(bytes) {
            Some(value) => Some(json_of(value)),
            None => None,
        }
    }

    /// Writes a document, indented. Reading it gives the document back, but for its numbers other
    /// than integers, where it is nested no deeper than the parser goes.
    pub fn render(self) -> (text: String)
        ensures
            text@ == rendered(self@),
            nests(self@, depth_limit()) ==> is_kept(self@),
    {
        to_string_pretty(&value_from(self))
    }

    /// The member under `key`, where this is an object that has one.
    pub fn get(&self, key: &str) -> (member: Option<&Json>)
        ensures
            match member {
                Some(json) => self@ matches JsonView::Object(members) && members.contains_key(key@)
                    && members[key@] == json@,
                None => !(self@ matches JsonView::Object(members) && members.contains_key(key@)),
            },
    {
        match self {
            Json::Object(pairs) => match last_place(pairs, key) {
                Some(at) => Some(&pairs[at].1),
                None => None,
            },
            _ => None,
        }
    }

    /// The text of the member under `key`, where there is such a member and it is a text.
    pub fn member_text(&self, key: &str) -> (text: Option<&str>)
        ensures
            match text {
                Some(t) => self@.member(key@).text() == Some(t@),
                None => self@.member(key@).text() is None,
            },
    {
        match self.get(key) {
            Some(Json::Text(text)) => Some(text.as_str()),
            _ => None,
        }
    }
}

/// Puts a pair behind the others, where it counts for its key.
pub(crate) fn put(pairs: &mut Vec<(String, Json)>, key: &str, value: Json)
    ensures
        object_view(final(pairs)@) == object_view(old(pairs)@).insert(key@, value@),
        final(pairs)@.len() == old(pairs)@.len() + 1,
{
    let ghost before = pairs@;
    pairs.push((key.to_owned(), value));
    assert(pairs@.drop_last() == before);
}

/// To take a pair out and put another in for its key comes to the same as putting that in alone.
pub(crate) proof fn pair_makes_way(pairs: Seq<(String, Json)>, place: int, value: JsonView)
    requires
        0 <= place < pairs.len(),
    ensures
        object_view(pairs.remove(place)).insert(pairs[place].0@, value) == object_view(
            pairs,
        ).insert(pairs[place].0@, value),
    decreases pairs.len(),
{
    let key = pairs[place].0@;
    let rest = pairs.drop_last();
    let last = pairs.last();
    assert(object_view(pairs) == object_view(rest).insert(last.0@, last.1@));
    if place == pairs.len() - 1 {
        assert(pairs.remove(place) =~= rest);
        assert(object_view(rest).insert(key, value) =~= object_view(pairs).insert(key, value));
    } else {
        let left = pairs.remove(place);
        assert(left.drop_last() =~= rest.remove(place));
        assert(left.last() == last);
        assert(object_view(left) == object_view(left.drop_last()).insert(last.0@, last.1@));
        pair_makes_way(rest, place, value);
        let without = object_view(rest.remove(place));
        let with = object_view(rest);
        assert(without.insert(key, value) == with.insert(key, value));
        assert(without.insert(last.0@, last.1@).insert(key, value) =~= with.insert(
            last.0@,
            last.1@,
        ).insert(key, value)) by {
            assert(forall|k: Seq<char>| k != key ==> without.contains_key(k) == with.contains_key(k)) by {
                assert forall|k: Seq<char>| k != key implies without.contains_key(k)
                    == with.contains_key(k) by {
                    assert(without.insert(key, value).contains_key(k) == with.insert(
                        key,
                        value,
                    ).contains_key(k));
                }
            }
            assert forall|k: Seq<char>| k != key && with.contains_key(k) implies without[k]
                == with[k] by {
                assert(without.insert(key, value)[k] == with.insert(key, value)[k]);
            }
        }
    }
}

/// Where the pair stands that counts for `key`.
pub(crate) fn last_place(pairs: &Vec<(String, Json)>, key: &str) -> (place: Option<usize>)
    ensures
        match place {
            Some(at) => at < pairs@.len() && pairs@[at as int].0@ == key@ && object_view(
                pairs@,
            ).contains_key(key@) && object_view(pairs@)[key@] == pairs@[at as int].1@,
            None => !object_view(pairs@).contains_key(key@),
        },
{
    let mut at: usize = pairs.len();
    assert(pairs@.take(at as int) == pairs@);
    while at > 0
        invariant
            at <= pairs@.len(),
            object_view(pairs@).contains_key(key@) == object_view(
                pairs@.take(at as int),
            ).contains_key(key@),
            object_view(pairs@)[key@] == object_view(pairs@.take(at as int))[key@],
        decreases at,
    {
        let ghost head = pairs@.take(at as int);
        assert(head.drop_last() == pairs@.take(at - 1));
        assert(head.last() == pairs@[at - 1]);
        assert(object_view(head) == object_view(head.drop_last()).insert(
            head.last().0@,
            head.last().1@,
        ));
        at = at - 1;
        if same_text(pairs[at].0.as_str(), key) {
            return Some(at);
        }
    }
    None
}

/// A document says what it is made of: leaves say themselves, a list says its items in their order,
/// and one more pair puts what it says under its key.
pub proof fn documents_say_what_they_hold(
    text: String,
    flag: bool,
    unsigned: u64,
    signed: i64,
    items: Vec<Json>,
    pairs: Vec<(String, Json)>,
    pair: (String, Json),
)
    ensures
        Json::Null@ == JsonView::Null,
        Json::Bool(flag)@ == JsonView::Bool(flag),
        Json::Unsigned(unsigned)@ == JsonView::Integer(unsigned as int),
        Json::Signed(signed)@ == JsonView::Integer(signed as int),
        Json::Text(text)@ == JsonView::Text(text@),
        Json::Array(items)@ == JsonView::Array(items@.map_values(|item: Json| item@)),
        Json::Object(pairs)@ matches JsonView::Object(members) && members == object_view(pairs@),
        object_view(Seq::empty()) == Map::<Seq<char>, JsonView>::empty(),
        object_view(pairs@.push(pair)) == object_view(pairs@).insert(pair.0@, pair.1@),
{
    assert(array_view(items@) =~= items@.map_values(|item: Json| item@));
    assert(pairs@.push(pair).drop_last() =~= pairs@);
}

/// What stands under a key is found under it, and under no other: nothing is found where there is
/// no such key, or no object. A text is the only thing that has one, and a list the only thing that
/// has items.
pub proof fn members_are_looked_up(
    members: Map<Seq<char>, JsonView>,
    key: Seq<char>,
    value: JsonView,
    other: Seq<char>,
)
    ensures
        JsonView::Object(members.insert(key, value)).member(key) == value,
        other != key ==> JsonView::Object(members.insert(key, value)).member(other)
            == JsonView::Object(members).member(other),
        JsonView::Object(Map::empty()).member(key) == JsonView::Null,
        !(value is Object) ==> value.member(key) == JsonView::Null,
        value.text() == (match value {
            JsonView::Text(text) => Some(text),
            _ => None,
        }),
        value.items() == (match value {
            JsonView::Array(items) => Some(items),
            _ => None,
        }),
{
}

} // verus!
