//! What request paths and ranges look like, and the `regex-lite` searches that take them apart.
use crate::text::{
    contains_text, decimal, decimal_reads_back, decimal_value, is_digit, occurs_at, parse_decimal,
};
use vstd::prelude::*;

verus! {

/// A name, and behind the last `/manifests/` a reference.
pub const MANIFEST_PATH: &'static str = "(.+)/manifests/(.+)";

/// A last segment behind a slash.
pub const SEGMENT_PATH: &'static str = ".+/([^/]+)";

/// A name, and behind the last `/blobs/uploads/` the id of an upload.
pub const UPLOAD_PATH: &'static str = "(.+)/blobs/uploads/(.+)";

/// A name, and `/blobs/uploads` or `/blobs/uploads/` at the end.
pub const UPLOADS_PATH: &'static str = "(.+)/blobs/uploads/?$";

/// Behind the last `/blobs/` a digest.
pub const BLOB_PATH: &'static str = ".+/blobs/(.+)";

/// The first and the last byte of a chunk.
pub const BYTE_RANGE: &'static str = "^(\\d+)-(\\d+)$";

pub open spec fn is_pattern(pattern: Seq<char>) -> bool {
    ||| pattern == MANIFEST_PATH@
    ||| pattern == SEGMENT_PATH@
    ||| pattern == UPLOAD_PATH@
    ||| pattern == UPLOADS_PATH@
    ||| pattern == BLOB_PATH@
    ||| pattern == BYTE_RANGE@
}

/// `text` can be split at `mid`: from `start` up to there it is not empty and stays on one line,
/// then comes `mark`, then a character other than `stop`.
pub open spec fn is_split(
    text: Seq<char>,
    mark: Seq<char>,
    stop: char,
    start: int,
    mid: int,
) -> bool {
    &&& 0 <= start < mid
    &&& mid + mark.len() < text.len()
    &&& forall|i: int| start <= i < mid ==> text[i] != '\n'
    &&& occurs_at(text, mark, mid)
    &&& text[mid + mark.len()] != stop
}

/// The split that a search finds: it starts as early as any, and from there `mark` comes as late
/// as it can.
pub open spec fn is_found_split(
    text: Seq<char>,
    mark: Seq<char>,
    stop: char,
    start: int,
    mid: int,
) -> bool {
    &&& is_split(text, mark, stop, start, mid)
    &&& forall|s: int, m: int|
        #[trigger] is_split(text, mark, stop, s, m) ==> start <= s && (s == start ==> m <= mid)
}

/// The first place from `from` on that holds `stop`, or the end of `text`.
pub open spec fn run_end(text: Seq<char>, stop: char, from: int) -> int
    decreases text.len() - from,
{
    if from >= text.len() || text[from] == stop {
        from
    } else {
        run_end(text, stop, from + 1)
    }
}

/// What stands on either side of `mark` in the split that a search finds: before it, and after it
/// up to the next `stop`.
pub open spec fn split_around(text: Seq<char>, mark: Seq<char>, stop: char) -> Option<
    (Seq<char>, Seq<char>),
> {
    if exists|start: int, mid: int| is_found_split(text, mark, stop, start, mid) {
        let (start, mid) = choose|start: int, mid: int|
            is_found_split(text, mark, stop, start, mid);
        let from = mid + mark.len();
        Some((text.subrange(start, mid), text.subrange(from, run_end(text, stop, from))))
    } else {
        None
    }
}

/// Where the line begins that holds the character before `at`.
pub open spec fn line_start(text: Seq<char>, at: int) -> int
    decreases at,
{
    if at <= 0 || text[at - 1] == '\n' {
        at
    } else {
        line_start(text, at - 1)
    }
}

/// What stands before `mark` on its line, where `text` ends in `mark` and something does.
pub open spec fn before_end(text: Seq<char>, mark: Seq<char>) -> Option<Seq<char>> {
    let mid = text.len() - mark.len();
    if mid > 0 && occurs_at(text, mark, mid) && text[mid - 1] != '\n' {
        Some(text.subrange(line_start(text, mid), mid))
    } else {
        None
    }
}

/// The name in a path that ends in `/blobs/uploads`, with or without a slash behind it.
pub open spec fn uploads_name(path: Seq<char>) -> Option<Seq<char>> {
    match before_end(path, "/blobs/uploads"@) {
        Some(name) => Some(name),
        None => before_end(path, "/blobs/uploads/"@),
    }
}

/// The dash at `at` parts `text` into two runs of digits, neither of them empty.
pub open spec fn is_dash(text: Seq<char>, at: int) -> bool {
    &&& 0 < at < text.len() - 1
    &&& text[at] == '-'
    &&& forall|i: int| 0 <= i < text.len() && i != at ==> is_digit(#[trigger] text[i])
}

/// The two numbers of a byte range, in digits.
pub open spec fn range_digits(text: Seq<char>) -> Option<(Seq<char>, Seq<char>)> {
    if exists|at: int| is_dash(text, at) {
        let at = choose|at: int| is_dash(text, at);
        Some((text.subrange(0, at), text.subrange(at + 1, text.len() as int)))
    } else {
        None
    }
}

/// The texts of the groups that a search found.
pub open spec fn group_texts(groups: Option<Vec<String>>) -> Option<Seq<Seq<char>>> {
    match groups {
        Some(texts) => Some(texts@.map_values(|text: String| text@)),
        None => None,
    }
}

pub open spec fn both(found: Option<(Seq<char>, Seq<char>)>) -> Option<Seq<Seq<char>>> {
    match found {
        Some((first, second)) => Some(seq![first, second]),
        None => None,
    }
}

pub open spec fn second(found: Option<(Seq<char>, Seq<char>)>) -> Option<Seq<Seq<char>>> {
    match found {
        Some((_, second)) => Some(seq![second]),
        None => None,
    }
}

/// Calls `regex_lite::Regex::new` and `captures`: the texts of the groups in the first match, or
/// nothing where there is none. A match starts as early as it can, and each `.+` takes as much as
/// the rest of the pattern leaves it, from one line; `\d` is an ASCII digit; `$` is the end of
/// the text.
#[verifier::external_body]
fn captures(pattern: &str, text: &str) -> (groups: Option<Vec<String>>)
    requires
        is_pattern(pattern@),
    ensures
        pattern@ == MANIFEST_PATH@ ==> group_texts(groups) == both(
            split_around(text@, "/manifests/"@, '\n'),
        ),
        pattern@ == SEGMENT_PATH@ ==> group_texts(groups) == second(
            split_around(text@, "/"@, '/'),
        ),
        pattern@ == UPLOAD_PATH@ ==> group_texts(groups) == both(
            split_around(text@, "/blobs/uploads/"@, '\n'),
        ),
        pattern@ == UPLOADS_PATH@ ==> group_texts(groups) == (match uploads_name(text@) {
            Some(name) => Some(seq![name]),
            None => None,
        }),
        pattern@ == BLOB_PATH@ ==> group_texts(groups) == second(
            split_around(text@, "/blobs/"@, '\n'),
        ),
        pattern@ == BYTE_RANGE@ ==> group_texts(groups) == both(range_digits(text@)),
{
    let regex = regex_lite::Regex::new(pattern).unwrap();
    let found = regex.captures(text)?;
    Some((1..found.len()).map(|group| found[group].to_string()).collect())
}

/// The name and the reference in the path of a manifest.
pub open spec fn manifest_parts(path: Seq<char>) -> Option<(Seq<char>, Seq<char>)> {
    split_around(path, "/manifests/"@, '\n')
}

/// The name and the id in the path of an upload.
pub open spec fn upload_parts(path: Seq<char>) -> Option<(Seq<char>, Seq<char>)> {
    split_around(path, "/blobs/uploads/"@, '\n')
}

/// The digest in the path of a blob.
pub open spec fn blob_part(path: Seq<char>) -> Option<Seq<char>> {
    match split_around(path, "/blobs/"@, '\n') {
        Some((_, digest)) => Some(digest),
        None => None,
    }
}

/// The last segment of a path of more than one.
pub open spec fn segment_part(path: Seq<char>) -> Option<Seq<char>> {
    match split_around(path, "/"@, '/') {
        Some((_, segment)) => Some(segment),
        None => None,
    }
}

pub open spec fn pair_view(pair: Option<(String, String)>) -> Option<(Seq<char>, Seq<char>)> {
    match pair {
        Some((first, second)) => Some((first@, second@)),
        None => None,
    }
}

pub open spec fn text_view(text: Option<String>) -> Option<Seq<char>> {
    match text {
        Some(text) => Some(text@),
        None => None,
    }
}

/// The two texts that a search for a pattern of two groups found.
fn two_groups(pattern: &str, text: &str) -> (pair: Option<(String, String)>)
    requires
        pattern@ == MANIFEST_PATH@ || pattern@ == UPLOAD_PATH@ || pattern@ == BYTE_RANGE@,
    ensures
        pattern@ == MANIFEST_PATH@ ==> pair_view(pair) == manifest_parts(text@),
        pattern@ == UPLOAD_PATH@ ==> pair_view(pair) == upload_parts(text@),
        pattern@ == BYTE_RANGE@ ==> pair_view(pair) == range_digits(text@),
{
    match captures(pattern, text) {
        None => None,
        Some(groups) => {
            let ghost texts = groups@.map_values(|text: String| text@);
            let ghost wanted = if pattern@ == MANIFEST_PATH@ {
                manifest_parts(text@)
            } else if pattern@ == UPLOAD_PATH@ {
                upload_parts(text@)
            } else {
                range_digits(text@)
            };
            assert(both(wanted) == Some(texts));
            assert(wanted matches Some((first, second)) && texts == seq![first, second]);
            assert(texts.len() == groups@.len());
            assert(texts[0] == groups@[0]@ && texts[1] == groups@[1]@);
            let mut groups = groups;
            let second = groups.remove(1);
            let first = groups.remove(0);
            Some((first, second))
        },
    }
}

/// The text that a search for a pattern of one group found.
fn one_group(pattern: &str, text: &str) -> (group: Option<String>)
    requires
        pattern@ == SEGMENT_PATH@ || pattern@ == UPLOADS_PATH@ || pattern@ == BLOB_PATH@,
    ensures
        pattern@ == SEGMENT_PATH@ ==> text_view(group) == segment_part(text@),
        pattern@ == UPLOADS_PATH@ ==> text_view(group) == uploads_name(text@),
        pattern@ == BLOB_PATH@ ==> text_view(group) == blob_part(text@),
{
    match captures(pattern, text) {
        None => None,
        Some(groups) => {
            let ghost texts = groups@.map_values(|text: String| text@);
            let ghost wanted = if pattern@ == SEGMENT_PATH@ {
                segment_part(text@)
            } else if pattern@ == UPLOADS_PATH@ {
                uploads_name(text@)
            } else {
                blob_part(text@)
            };
            assert(texts == seq![wanted->0]);
            assert(texts.len() == groups@.len());
            assert(texts[0] == groups@[0]@);
            let mut groups = groups;
            Some(groups.remove(0))
        },
    }
}

/// Takes the path of a manifest apart: its name and its reference.
pub fn manifest_path(path: &str) -> (parts: Option<(String, String)>)
    ensures
        pair_view(parts) == manifest_parts(path@),
{
    two_groups(MANIFEST_PATH, path)
}

/// Takes the path of an upload apart: its name and its id.
pub fn upload_path(path: &str) -> (parts: Option<(String, String)>)
    ensures
        pair_view(parts) == upload_parts(path@),
{
    two_groups(UPLOAD_PATH, path)
}

/// The digest in the path of a blob.
pub fn blob_path(path: &str) -> (digest: Option<String>)
    ensures
        text_view(digest) == blob_part(path@),
{
    one_group(BLOB_PATH, path)
}

/// The last segment of a path of more than one.
pub fn last_segment(path: &str) -> (segment: Option<String>)
    ensures
        text_view(segment) == segment_part(path@),
{
    one_group(SEGMENT_PATH, path)
}

/// Whether a path asks to start an upload.
pub fn opens_upload(path: &str) -> (opens: bool)
    ensures
        opens == (uploads_name(path@) is Some),
{
    one_group(UPLOADS_PATH, path).is_some()
}

/// The number that a run of digits stands for in a byte range: 0 where a `usize` cannot hold it.
pub open spec fn range_number(digits: Seq<char>) -> usize {
    if decimal_value(digits) <= usize::MAX {
        decimal_value(digits) as usize
    } else {
        0
    }
}

/// The first and the last byte of a chunk, where `text` is a byte range.
pub open spec fn range_bounds(text: Seq<char>) -> Option<(usize, usize)> {
    match range_digits(text) {
        Some((first, last)) => Some((range_number(first), range_number(last))),
        None => None,
    }
}

/// Reads a byte range: the first and the last byte of a chunk.
pub fn byte_range(text: &str) -> (bounds: Option<(usize, usize)>)
    ensures
        bounds == range_bounds(text@),
{
    match two_groups(BYTE_RANGE, text) {
        None => None,
        Some((first, last)) => Some(
            (
                match parse_decimal(first.as_str()) {
                    Some(n) => n,
                    None => 0,
                },
                match parse_decimal(last.as_str()) {
                    Some(n) => n,
                    None => 0,
                },
            ),
        ),
    }
}

/// `c` does not stand in `text`.
pub open spec fn is_without(text: Seq<char>, c: char) -> bool {
    forall|i: int| 0 <= i < text.len() ==> #[trigger] text[i] != c
}

/// A search finds one split: what it gives are the sides of that.
proof fn found_split_is_given(text: Seq<char>, mark: Seq<char>, stop: char, start: int, mid: int)
    requires
        is_found_split(text, mark, stop, start, mid),
    ensures
        split_around(text, mark, stop) == Some(
            (
                text.subrange(start, mid),
                text.subrange(mid + mark.len(), run_end(text, stop, mid + mark.len())),
            ),
        ),
{
    let (s, m) = choose|s: int, m: int| is_found_split(text, mark, stop, s, m);
    assert(is_split(text, mark, stop, s, m));
    assert(is_split(text, mark, stop, start, mid));
}

/// Where `stop` does not stand from `from` on, a run goes on to the end.
proof fn run_goes_on(text: Seq<char>, stop: char, from: int)
    requires
        0 <= from <= text.len(),
        forall|i: int| from <= i < text.len() ==> text[i] != stop,
    ensures
        run_end(text, stop, from) == text.len(),
    decreases text.len() - from,
{
    if from < text.len() {
        run_goes_on(text, stop, from + 1);
    }
}

/// Around a mark that ends in a slash, with no slashes behind it, the split is the one that a search
/// finds.
proof fn split_is_found(name: Seq<char>, mark: Seq<char>, stop: char, last: Seq<char>)
    requires
        name.len() > 0,
        is_without(name, '\n'),
        mark.len() > 0,
        mark.last() == '/',
        last.len() > 0,
        is_without(last, '/'),
        is_without(last, stop),
    ensures
        is_found_split(name + mark + last, mark, stop, 0, name.len() as int),
{
    let text = name + mark + last;
    let mid = name.len() as int;
    let from = mid + mark.len();
    assert(text.subrange(mid, from) =~= mark);
    assert(text[from] == last[0]);
    assert(is_split(text, mark, stop, 0, mid));
    assert forall|s: int, m: int| #[trigger] is_split(text, mark, stop, s, m) implies 0 <= s && (s
        == 0 ==> m <= mid) by {
        if m > mid {
            let end = m + mark.len() - 1;
            assert(text.subrange(m, m + mark.len())[mark.len() - 1] == '/');
            assert(text[end] == last[end - from]);
        }
    }
}

/// A name and a last part without slashes, put together around a mark that ends in a slash, are
/// what a search takes apart again.
pub proof fn parts_are_found(name: Seq<char>, mark: Seq<char>, stop: char, last: Seq<char>)
    requires
        name.len() > 0,
        is_without(name, '\n'),
        mark.len() > 0,
        mark.last() == '/',
        last.len() > 0,
        is_without(last, '/'),
        is_without(last, stop),
    ensures
        split_around(name + mark + last, mark, stop) == Some((name, last)),
{
    let text = name + mark + last;
    let mid = name.len() as int;
    let from = mid + mark.len();
    split_is_found(name, mark, stop, last);
    found_split_is_given(text, mark, stop, 0, mid);
    assert(run_end(text, stop, from) == text.len()) by {
        assert forall|i: int| from <= i < text.len() implies text[i] != stop by {
            assert(text[i] == last[i - from]);
        }
        run_goes_on(text, stop, from);
    }
    assert(text.subrange(0, mid) =~= name);
    assert(text.subrange(from, text.len() as int) =~= last);
}

/// A text of one line that a search takes apart is its two parts around the mark.
pub proof fn parts_make_the_whole(text: Seq<char>, mark: Seq<char>)
    requires
        is_without(text, '\n'),
    ensures
        split_around(text, mark, '\n') matches Some((name, last)) ==> text == name + mark + last,
{
    if split_around(text, mark, '\n') is Some {
        let (start, mid) = choose|s: int, m: int| is_found_split(text, mark, '\n', s, m);
        assert(is_split(text, mark, '\n', start, mid));
        assert(is_split(text, mark, '\n', 0, mid));
        let from = mid + mark.len();
        run_goes_on(text, '\n', from);
        assert(text =~= text.subrange(0, mid) + text.subrange(mid, from) + text.subrange(
            from,
            text.len() as int,
        ));
    }
}

/// Where the mark does not occur, there is nothing to find.
proof fn no_mark_no_parts(text: Seq<char>, mark: Seq<char>, stop: char)
    requires
        forall|at: int| !occurs_at(text, mark, at),
    ensures
        split_around(text, mark, stop) is None,
{
}

/// An image is found by the path that names it: the path with its name and reference is taken
/// apart into these.
pub proof fn manifest_path_is_found(name: Seq<char>, reference: Seq<char>)
    requires
        name.len() > 0,
        is_without(name, '\n'),
        reference.len() > 0,
        is_without(reference, '/'),
        is_without(reference, '\n'),
    ensures
        manifest_parts(name + "/manifests/"@ + reference) == Some((name, reference)),
{
    reveal_strlit("/manifests/");
    parts_are_found(name, "/manifests/"@, '\n', reference);
}

/// An upload is found by the path that names it: the path with its name and id is taken apart into
/// these.
pub proof fn upload_path_is_found(name: Seq<char>, id: Seq<char>)
    requires
        name.len() > 0,
        is_without(name, '\n'),
        id.len() > 0,
        is_without(id, '/'),
        is_without(id, '\n'),
    ensures
        upload_parts(name + "/blobs/uploads/"@ + id) == Some((name, id)),
{
    reveal_strlit("/blobs/uploads/");
    parts_are_found(name, "/blobs/uploads/"@, '\n', id);
}

/// Between a name and a last part without slashes, `/blobs/` brings no `/manifests/` with it.
proof fn no_manifest_among_blobs(name: Seq<char>, digest: Seq<char>, at: int)
    requires
        !occurs_at(name + "/"@, "/manifests/"@, at),
        is_without(digest, '/'),
    ensures
        !occurs_at(name + "/blobs/"@ + digest, "/manifests/"@, at),
{
    reveal_strlit("/manifests/");
    reveal_strlit("/blobs/");
    reveal_strlit("/");
    let mark = "/manifests/"@;
    let text = name + "/blobs/"@ + digest;
    if occurs_at(text, mark, at) {
        let found = text.subrange(at, at + 11);
        let end = at + 10;
        let behind = end - name.len();
        assert(found == mark);
        assert(text[end] == found[10]);
        assert(text[end - 2] == found[8]);
        if behind <= 0 {
            assert((name + "/"@).subrange(at, at + 11) =~= found);
        } else if behind > 6 {
            assert(text[end] == digest[behind - 7]);
        } else {
            assert(text[end] == "/blobs/"@[behind]);
            assert(text[end - 2] == "/blobs/"@[4]);
        }
    }
}

/// A path with `/blobs/` between a name and a last part without slashes names no manifest.
proof fn blob_is_no_manifest(name: Seq<char>, digest: Seq<char>)
    requires
        !contains_text(name + "/"@, "/manifests/"@),
        is_without(digest, '/'),
    ensures
        manifest_parts(name + "/blobs/"@ + digest) is None,
{
    let text = name + "/blobs/"@ + digest;
    assert forall|at: int| !occurs_at(text, "/manifests/"@, at) by {
        assert(!occurs_at(name + "/"@, "/manifests/"@, at));
        no_manifest_among_blobs(name, digest, at);
    }
    no_mark_no_parts(text, "/manifests/"@, '\n');
}

/// The path of an upload names no manifest, unless its name holds `/manifests/`, or does with a slash
/// behind it.
pub proof fn upload_is_no_manifest(name: Seq<char>, id: Seq<char>)
    requires
        !contains_text(name + "/"@, "/manifests/"@),
        is_without(id, '/'),
    ensures
        manifest_parts(name + "/blobs/uploads/"@ + id) is None,
{
    let text = name + "/blobs/uploads/"@ + id;
    assert forall|at: int| !occurs_at(text, "/manifests/"@, at) by {
        assert(!occurs_at(name + "/"@, "/manifests/"@, at));
        no_manifest_among_uploads(name, id, at);
    }
    no_mark_no_parts(text, "/manifests/"@, '\n');
}

/// Between a name and an id without slashes, `/blobs/uploads/` brings no `/manifests/` with it.
proof fn no_manifest_among_uploads(name: Seq<char>, id: Seq<char>, at: int)
    requires
        !occurs_at(name + "/"@, "/manifests/"@, at),
        is_without(id, '/'),
    ensures
        !occurs_at(name + "/blobs/uploads/"@ + id, "/manifests/"@, at),
{
    reveal_strlit("/manifests/");
    reveal_strlit("/blobs/uploads/");
    reveal_strlit("/");
    let mark = "/manifests/"@;
    let text = name + "/blobs/uploads/"@ + id;
    if occurs_at(text, mark, at) {
        let found = text.subrange(at, at + 11);
        let end = at + 10;
        let behind = end - name.len();
        assert(found == mark);
        assert(text[end] == found[10]);
        assert(text[end - 2] == found[8]);
        if behind <= 0 {
            assert((name + "/"@).subrange(at, at + 11) =~= found);
        } else if behind > 14 {
            assert(text[end] == id[behind - 15]);
        } else {
            assert(text[end] == "/blobs/uploads/"@[behind]);
            assert(behind == 6 || behind == 14);
            assert(text[end - 2] == "/blobs/uploads/"@[behind - 2]);
        }
    }
}

/// The last part of a path is its last segment.
proof fn last_part_is_segment(front: Seq<char>, last: Seq<char>)
    requires
        front.len() > 0,
        is_without(front, '\n'),
        last.len() > 0,
        is_without(last, '/'),
    ensures
        segment_part(front + "/"@ + last) == Some(last),
{
    reveal_strlit("/");
    parts_are_found(front, "/"@, '/', last);
}

/// The digest is the last segment of the path of a blob.
proof fn digest_is_segment(name: Seq<char>, digest: Seq<char>)
    requires
        name.len() > 0,
        is_without(name, '\n'),
        digest.len() > 0,
        is_without(digest, '/'),
    ensures
        segment_part(name + "/blobs/"@ + digest) == Some(digest),
{
    let front = name + "/blobs"@;
    assert("/blobs"@ + "/"@ =~= "/blobs/"@ && is_without("/blobs"@, '\n')) by {
        reveal_strlit("/blobs/");
        reveal_strlit("/blobs");
        reveal_strlit("/");
    }
    assert(front + "/"@ + digest =~= name + ("/blobs"@ + "/"@) + digest);
    last_part_is_segment(front, digest);
}

/// A blob is found by the path that names it, whether it is to be sent or described: the path with
/// a name and its digest names no manifest, and is taken apart into that digest, unless the name
/// holds `/manifests/`, or does with a slash behind it.
pub proof fn blob_path_is_found(name: Seq<char>, digest: Seq<char>)
    requires
        name.len() > 0,
        is_without(name, '\n'),
        !contains_text(name + "/"@, "/manifests/"@),
        digest.len() > 0,
        is_without(digest, '/'),
        is_without(digest, '\n'),
    ensures
        manifest_parts(name + "/blobs/"@ + digest) is None,
        segment_part(name + "/blobs/"@ + digest) == Some(digest),
        blob_part(name + "/blobs/"@ + digest) == Some(digest),
{
    blob_is_no_manifest(name, digest);
    digest_is_segment(name, digest);
    assert(blob_part(name + "/blobs/"@ + digest) == Some(digest)) by {
        reveal_strlit("/blobs/");
        parts_are_found(name, "/blobs/"@, '\n', digest);
    }
}

/// A path of two segments names no manifest, and its last part is the second of them.
pub proof fn second_segment_is_found(first: Seq<char>, last: Seq<char>)
    requires
        first.len() > 0,
        is_without(first, '/'),
        is_without(first, '\n'),
        last.len() > 0,
        is_without(last, '/'),
    ensures
        manifest_parts(first + "/"@ + last) is None,
        segment_part(first + "/"@ + last) == Some(last),
{
    last_part_is_segment(first, last);
    let text = first + "/"@ + last;
    assert(manifest_parts(text) is None) by {
        assert forall|at: int| !occurs_at(text, "/manifests/"@, at) by {
            reveal_strlit("/manifests/");
            reveal_strlit("/");
            if occurs_at(text, "/manifests/"@, at) {
                let found = text.subrange(at, at + 11);
                assert(text[at] == found[0] && text[at + 10] == found[10]);
                if at < first.len() {
                    assert(text[at] == first[at]);
                } else {
                    assert(text[at + 10] == last[at + 10 - first.len() - 1]);
                }
            }
        }
        no_mark_no_parts(text, "/manifests/"@, '\n');
    }
}

/// On a text of one line, the line begins where the text does.
proof fn one_line_starts_at_once(text: Seq<char>, at: int)
    requires
        is_without(text, '\n'),
        0 <= at <= text.len(),
    ensures
        line_start(text, at) == 0,
    decreases at,
{
    if at > 0 {
        one_line_starts_at_once(text, at - 1);
    }
}

/// A path of one line that starts an upload is the name in it, and `/blobs/uploads`, with or
/// without a slash behind it.
pub proof fn uploads_path_is_whole(path: Seq<char>)
    requires
        is_without(path, '\n'),
    ensures
        uploads_name(path) matches Some(name) ==> name.len() > 0 && (path == name
            + "/blobs/uploads"@ || path == name + "/blobs/uploads/"@),
{
    if uploads_name(path) is Some {
        let mark = if before_end(path, "/blobs/uploads"@) is Some {
            "/blobs/uploads"@
        } else {
            "/blobs/uploads/"@
        };
        let mid = path.len() - mark.len();
        one_line_starts_at_once(path, mid);
        assert(path =~= path.subrange(0, mid) + path.subrange(mid, mid + mark.len()));
    }
}

/// A range is read as it was written: the decimal forms of two numbers around a dash stand for
/// these numbers.
pub proof fn range_reads_back(first: usize, last: usize)
    ensures
        range_bounds(decimal(first as nat) + "-"@ + decimal(last as nat)) == Some((first, last)),
{
    let front = decimal(first as nat);
    let back = decimal(last as nat);
    let text = front + "-"@ + back;
    let dash = front.len() as int;
    decimal_reads_back(first as nat);
    decimal_reads_back(last as nat);
    assert("-"@ =~= seq!['-']) by {
        reveal_strlit("-");
    }
    assert(text[dash] == '-');
    assert forall|i: int| 0 <= i < text.len() && i != dash implies is_digit(#[trigger] text[i]) by {
        if i < dash {
            assert(text[i] == front[i]);
        } else {
            assert(text[i] == back[i - dash - 1]);
        }
    }
    assert(is_dash(text, dash));
    assert forall|at: int| is_dash(text, at) implies at == dash by {
        if at != dash {
            assert(is_digit(text[at]));
        }
    }
    assert(text.subrange(0, dash) =~= front);
    assert(text.subrange(dash + 1, text.len() as int) =~= back);
}

/// From a split on, there is a latest one.
proof fn latest_split(text: Seq<char>, mark: Seq<char>, stop: char, mid: int) -> (latest: int)
    requires
        is_split(text, mark, stop, 0, mid),
    ensures
        is_split(text, mark, stop, 0, latest),
        forall|m: int| #[trigger] is_split(text, mark, stop, 0, m) ==> m <= latest,
    decreases text.len() - mid,
{
    if exists|m: int| m > mid && #[trigger] is_split(text, mark, stop, 0, m) {
        let later = choose|m: int| m > mid && #[trigger] is_split(text, mark, stop, 0, m);
        latest_split(text, mark, stop, later)
    } else {
        mid
    }
}

/// A text that is two parts around a mark can be split between them.
proof fn parts_are_split(text: Seq<char>, mark: Seq<char>, a: Seq<char>, b: Seq<char>)
    requires
        is_without(text, '\n'),
        a.len() > 0,
        b.len() > 0,
        text == a + mark + b,
    ensures
        is_split(text, mark, '\n', 0, a.len() as int),
{
    let mid = a.len() as int;
    assert(text.subrange(mid, mid + mark.len()) =~= mark);
}

/// A text of one line is split around the last mark that something follows.
proof fn last_split_is_found(text: Seq<char>, mark: Seq<char>)
    requires
        is_without(text, '\n'),
    ensures
        match split_around(text, mark, '\n') {
            Some((name, last)) => {
                &&& text == name + mark + last
                &&& name.len() > 0
                &&& last.len() > 0
                &&& forall|a: Seq<char>, b: Seq<char>|
                    a.len() > 0 && b.len() > 0 && text == #[trigger] (a + mark + b) ==> a.len()
                        <= name.len()
            },
            None => forall|a: Seq<char>, b: Seq<char>|
                a.len() > 0 && b.len() > 0 ==> text != #[trigger] (a + mark + b),
        },
{
    parts_make_the_whole(text, mark);
    if split_around(text, mark, '\n') is Some {
        let (start, mid) = choose|s: int, m: int| is_found_split(text, mark, '\n', s, m);
        assert(is_split(text, mark, '\n', start, mid));
        assert(is_split(text, mark, '\n', 0, mid));
        assert(start == 0);
        run_goes_on(text, '\n', mid + mark.len());
        assert forall|a: Seq<char>, b: Seq<char>|
            a.len() > 0 && b.len() > 0 && text == #[trigger] (a + mark + b) implies a.len()
            <= mid by {
            parts_are_split(text, mark, a, b);
        }
    } else {
        assert forall|a: Seq<char>, b: Seq<char>|
            a.len() > 0 && b.len() > 0 implies text != #[trigger] (a + mark + b) by {
            if text == a + mark + b {
                parts_are_split(text, mark, a, b);
                let latest = latest_split(text, mark, '\n', a.len() as int);
                assert forall|s: int, m: int| #[trigger] is_split(text, mark, '\n', s, m) implies 0
                    <= s && (s == 0 ==> m <= latest) by {
                    if s == 0 {
                        assert(is_split(text, mark, '\n', 0, m));
                    }
                }
                assert(is_found_split(text, mark, '\n', 0, latest));
            }
        }
    }
}

/// A path of one line names a manifest just where it is something, `/manifests/` and something; its
/// name is what stands before the last such mark, and its reference all that follows.
pub proof fn manifest_path_has_two_parts(path: Seq<char>)
    requires
        is_without(path, '\n'),
    ensures
        match manifest_parts(path) {
            Some((name, reference)) => {
                &&& path == name + "/manifests/"@ + reference && name.len() > 0 && reference.len() > 0
                &&& forall|a: Seq<char>, b: Seq<char>|
                    a.len() > 0 && b.len() > 0 && path == #[trigger] (a + "/manifests/"@ + b)
                        ==> a.len() <= name.len()
            },
            None => forall|a: Seq<char>, b: Seq<char>|
                a.len() > 0 && b.len() > 0 ==> path != #[trigger] (a + "/manifests/"@ + b),
        },
{
    last_split_is_found(path, "/manifests/"@);
}

/// A path of one line names an upload just where it is something, `/blobs/uploads/` and something;
/// its name is what stands before the last such mark, and its id all that follows.
pub proof fn upload_path_has_two_parts(path: Seq<char>)
    requires
        is_without(path, '\n'),
    ensures
        match upload_parts(path) {
            Some((name, id)) => {
                &&& path == name + "/blobs/uploads/"@ + id && name.len() > 0 && id.len() > 0
                &&& forall|a: Seq<char>, b: Seq<char>|
                    a.len() > 0 && b.len() > 0 && path == #[trigger] (a + "/blobs/uploads/"@ + b)
                        ==> a.len() <= name.len()
            },
            None => forall|a: Seq<char>, b: Seq<char>|
                a.len() > 0 && b.len() > 0 ==> path != #[trigger] (a + "/blobs/uploads/"@ + b),
        },
{
    last_split_is_found(path, "/blobs/uploads/"@);
}

/// A path of one line names a blob to describe just where it is something, `/blobs/` and something;
/// its digest is all that follows the last such mark.
pub proof fn blob_path_has_two_parts(path: Seq<char>)
    requires
        is_without(path, '\n'),
    ensures
        match blob_part(path) {
            Some(digest) => {
                let name = path.take(path.len() - digest.len() - "/blobs/"@.len());
                &&& path == name + "/blobs/"@ + digest && name.len() > 0 && digest.len() > 0
                &&& forall|a: Seq<char>, b: Seq<char>|
                    a.len() > 0 && b.len() > 0 && path == #[trigger] (a + "/blobs/"@ + b)
                        ==> a.len() <= name.len()
            },
            None => forall|a: Seq<char>, b: Seq<char>|
                a.len() > 0 && b.len() > 0 ==> path != #[trigger] (a + "/blobs/"@ + b),
        },
{
    last_split_is_found(path, "/blobs/"@);
    if let Some((name, digest)) = split_around(path, "/blobs/"@, '\n') {
        assert(path.take(path.len() - digest.len() - "/blobs/"@.len()) =~= name);
    }
}

/// The last segment of a path of one line is what stands behind the last slash that something other
/// than a slash follows, without the slashes at the end.
pub proof fn last_segment_is_found(front: Seq<char>, segment: Seq<char>, slashes: Seq<char>)
    requires
        front.len() > 0,
        is_without(front, '\n'),
        segment.len() > 0,
        is_without(segment, '/'),
        forall|i: int| 0 <= i < slashes.len() ==> #[trigger] slashes[i] == '/',
    ensures
        segment_part(front + "/"@ + segment + slashes) == Some(segment),
{
    reveal_strlit("/");
    let mark = "/"@;
    let text = front + mark + segment + slashes;
    let mid = front.len() as int;
    let end = mid + 1 + segment.len();
    assert(mark =~= seq!['/']);
    assert(text.subrange(mid, mid + mark.len()) =~= mark);
    assert(text[mid + 1] == segment[0]);
    assert(is_split(text, mark, '/', 0, mid));
    assert forall|s: int, m: int| #[trigger] is_split(text, mark, '/', s, m) implies 0 <= s && (s
        == 0 ==> m <= mid) by {
        if m > mid {
            assert(text.subrange(m, m + mark.len())[0] == '/');
            if m < end {
                assert(text[m] == segment[m - mid - 1]);
            } else {
                assert(text[m + 1] == slashes[m + 1 - end]);
            }
        }
    }
    found_split_is_given(text, mark, '/', 0, mid);
    segment_ends(text, mid + 1, end);
    assert(text.subrange(mid + 1, end) =~= segment);
}

/// A run without slashes ends at the first of them, or with the text.
proof fn segment_ends(text: Seq<char>, from: int, end: int)
    requires
        0 <= from <= end <= text.len(),
        forall|i: int| from <= i < end ==> #[trigger] text[i] != '/',
        end < text.len() ==> text[end] == '/',
    ensures
        run_end(text, '/', from) == end,
    decreases end - from,
{
    if from < end {
        segment_ends(text, from + 1, end);
    }
}

/// A path of one line that has a last segment has something and a slash before it, and only slashes
/// behind it.
pub proof fn last_segment_stands_at_the_end(path: Seq<char>)
    requires
        is_without(path, '\n'),
    ensures
        segment_part(path) matches Some(segment) ==> segment.len() > 0 && is_without(segment, '/')
            && exists|from: int|
            2 <= from && from + segment.len() <= path.len() && path[from - 1] == '/'
                && #[trigger] path.subrange(from, (from + segment.len()) as int) == segment && (
            from + segment.len() < path.len() ==> path[(from + segment.len()) as int] == '/'),
{
    if segment_part(path) is Some {
        reveal_strlit("/");
        let mark = "/"@;
        let (start, mid) = choose|s: int, m: int| is_found_split(path, mark, '/', s, m);
        assert(is_split(path, mark, '/', start, mid));
        let from = mid + 1;
        let end = run_end(path, '/', from);
        run_is_a_run(path, '/', from);
        assert(path.subrange(mid, mid + 1)[0] == '/');
        let segment = path.subrange(from, end);
        assert forall|i: int| 0 <= i < segment.len() implies #[trigger] segment[i] != '/' by {
            assert(segment[i] == path[from + i]);
        }
        assert(path.subrange(from, (from + segment.len()) as int) == segment);
    }
}

/// A run goes on up to a stop, or to the end.
proof fn run_is_a_run(text: Seq<char>, stop: char, from: int)
    requires
        0 <= from <= text.len(),
    ensures
        from <= run_end(text, stop, from) <= text.len(),
        forall|i: int| from <= i < run_end(text, stop, from) ==> #[trigger] text[i] != stop,
        run_end(text, stop, from) < text.len() ==> text[run_end(text, stop, from)] == stop,
        from < text.len() && text[from] != stop ==> from < run_end(text, stop, from),
    decreases text.len() - from,
{
    if from < text.len() && text[from] != stop {
        run_is_a_run(text, stop, from + 1);
    }
}

/// A path of a name and `/blobs/uploads`, with or without a slash behind it, starts an upload for
/// that name.
pub proof fn uploads_path_is_found(name: Seq<char>)
    requires
        name.len() > 0,
        is_without(name, '\n'),
    ensures
        uploads_name(name + "/blobs/uploads"@) == Some(name),
        uploads_name(name + "/blobs/uploads/"@) == Some(name),
{
    let short = name + "/blobs/uploads"@;
    let long = name + "/blobs/uploads/"@;
    let mid = name.len() as int;
    assert(short.subrange(mid, short.len() as int) =~= "/blobs/uploads"@);
    assert(long.subrange(mid, long.len() as int) =~= "/blobs/uploads/"@);
    name_is_on_one_line(name, "/blobs/uploads"@, mid);
    name_is_on_one_line(name, "/blobs/uploads/"@, mid);
    assert(short.subrange(0, mid) =~= name);
    assert(long.subrange(0, mid) =~= name);
    assert(before_end(long, "/blobs/uploads"@) is None) by {
        reveal_strlit("/blobs/uploads");
        reveal_strlit("/blobs/uploads/");
        let at = long.len() - 14;
        if occurs_at(long, "/blobs/uploads"@, at) {
            assert(long.subrange(at, at + 14)[13] == 's');
            assert(long[at + 13] == '/');
        }
    }
}

/// The line that a name is on begins with it.
proof fn name_is_on_one_line(name: Seq<char>, rest: Seq<char>, at: int)
    requires
        is_without(name, '\n'),
        0 <= at <= name.len(),
    ensures
        line_start(name + rest, at) == 0,
    decreases at,
{
    if at > 0 {
        assert((name + rest)[at - 1] == name[at - 1]);
        name_is_on_one_line(name, rest, at - 1);
    }
}

/// A text is a range just where it is digits, a dash and digits. Each of its two numbers is what the
/// digits stand for, or nought where that is more than can be held.
pub proof fn range_is_two_numbers(text: Seq<char>, first: Seq<char>, last: Seq<char>)
    requires
        first.len() > 0,
        last.len() > 0,
        forall|i: int| 0 <= i < first.len() ==> "0123456789"@.contains(#[trigger] first[i]),
        forall|i: int| 0 <= i < last.len() ==> "0123456789"@.contains(#[trigger] last[i]),
    ensures
        range_bounds(first + "-"@ + last) matches Some((start, end)) && start == (if decimal_value(
            first,
        ) <= usize::MAX {
            decimal_value(first)
        } else {
            0
        }) && end == (if decimal_value(last) <= usize::MAX {
            decimal_value(last)
        } else {
            0
        }),
        range_bounds(text) is Some ==> exists|at: int|
            0 < at < text.len() - 1 && text == text.take(at) + "-"@ + #[trigger] text.skip(at + 1)
                && forall|i: int|
                0 <= i < text.len() && i != at ==> "0123456789"@.contains(#[trigger] text[i]),
{
    reveal_strlit("0123456789");
    assert("-"@ =~= seq!['-']) by {
        reveal_strlit("-");
    }
    let range = first + "-"@ + last;
    let dash = first.len() as int;
    assert(range[dash] == '-');
    assert forall|i: int| 0 <= i < range.len() && i != dash implies is_digit(#[trigger] range[i]) by {
        if i < dash {
            assert(range[i] == first[i]);
        } else {
            assert(range[i] == last[i - dash - 1]);
        }
    }
    assert(is_dash(range, dash));
    assert forall|at: int| is_dash(range, at) implies at == dash by {
        if at != dash {
            assert(is_digit(range[at]));
        }
    }
    assert(range.subrange(0, dash) =~= first);
    assert(range.subrange(dash + 1, range.len() as int) =~= last);
    if range_bounds(text) is Some {
        let at = choose|at: int| is_dash(text, at);
        assert(is_dash(text, at));
        assert(text =~= text.take(at) + "-"@ + text.skip(at + 1));
        assert forall|i: int| 0 <= i < text.len() && i != at implies "0123456789"@.contains(
            #[trigger] text[i],
        ) by {
            assert(is_digit(text[i]));
            assert("0123456789"@[text[i] as int - '0' as int] == text[i]);
        }
        let rest = text.skip(at + 1);
    }
}

/// What may be missing says what it holds, where it is there.
pub proof fn found_texts_say_what_they_hold(first: String, second: String)
    ensures
        text_view(Some(first)) == Some(first@),
        text_view(None) is None,
        pair_view(Some((first, second))) == Some((first@, second@)),
        pair_view(None) is None,
{
}

/// The split that is found on a later line is found where that line stands.
proof fn split_on_a_later_line(
    first: Seq<char>,
    rest: Seq<char>,
    mark: Seq<char>,
    start: int,
    mid: int,
)
    requires
        is_without(first, '\n'),
        is_without(mark, '\n'),
        mark.len() > 0,
    ensures
        ({
            let text = first + seq!['\n'] + rest;
            let from = first.len() + 1;
            &&& is_split(first, mark, '\n', start, mid) ==> is_split(text, mark, '\n', start, mid)
            &&& is_split(rest, mark, '\n', start - from, mid - from) ==> is_split(
                text,
                mark,
                '\n',
                start,
                mid,
            )
            &&& is_split(text, mark, '\n', start, mid) ==> is_split(first, mark, '\n', start, mid)
                || is_split(rest, mark, '\n', start - from, mid - from)
        }),
{
    let text = first + seq!['\n'] + rest;
    let n = first.len() as int;
    let from = n + 1;
    let end = mid + mark.len();
    if is_split(first, mark, '\n', start, mid) {
        assert(text.subrange(mid, end) =~= first.subrange(mid, end));
        assert forall|i: int| start <= i < mid implies text[i] != '\n' by {
            assert(text[i] == first[i]);
        }
        assert(text[end] == first[end]);
    }
    if is_split(rest, mark, '\n', start - from, mid - from) {
        assert(text.subrange(mid, end) =~= rest.subrange(mid - from, end - from));
        assert forall|i: int| start <= i < mid implies text[i] != '\n' by {
            assert(text[i] == rest[i - from]);
        }
        assert(text[end] == rest[end - from]);
    }
    if is_split(text, mark, '\n', start, mid) {
        assert(text[n] == '\n');
        assert forall|i: int| start <= i <= end implies text[i] != '\n' by {
            if mid <= i < end {
                assert(text.subrange(mid, end)[i - mid] == mark[i - mid]);
            }
        }
        if end < n {
            assert(first.subrange(mid, end) =~= text.subrange(mid, end));
            assert(text[end] == first[end]);
            assert forall|i: int| start <= i < mid implies first[i] != '\n' by {
                assert(text[i] == first[i]);
            }
        } else {
            assert(start > n);
            assert(rest.subrange(mid - from, end - from) =~= text.subrange(mid, end));
            assert(text[end] == rest[end - from]);
            assert forall|i: int| start - from <= i < mid - from implies rest[i] != '\n' by {
                assert(text[i + from] == rest[i]);
            }
        }
    }
}

/// A run on a later line ends where it does there.
proof fn run_on_a_later_line(front: Seq<char>, rest: Seq<char>, stop: char, from: int)
    requires
        0 <= from <= rest.len(),
    ensures
        run_end(front + rest, stop, front.len() + from) == front.len() + run_end(rest, stop, from),
    decreases rest.len() - from,
{
    if from < rest.len() {
        assert((front + rest)[front.len() + from] == rest[from]);
        if rest[from] != stop {
            run_on_a_later_line(front, rest, stop, from + 1);
        }
    }
}

/// A text of several lines is split on the first of them that can be.
proof fn first_line_is_split_first(first: Seq<char>, rest: Seq<char>, mark: Seq<char>)
    requires
        is_without(first, '\n'),
        is_without(mark, '\n'),
        mark.len() > 0,
    ensures
        split_around(first + seq!['\n'] + rest, mark, '\n') == (match split_around(
            first,
            mark,
            '\n',
        ) {
            Some(parts) => Some(parts),
            None => split_around(rest, mark, '\n'),
        }),
{
    let text = first + seq!['\n'] + rest;
    let from = first.len() + 1;
    if split_around(first, mark, '\n') is Some {
        let (start, mid) = choose|s: int, m: int| is_found_split(first, mark, '\n', s, m);
        assert(is_found_split(first, mark, '\n', start, mid));
        split_on_a_later_line(first, rest, mark, start, mid);
        assert forall|s: int, m: int| #[trigger] is_split(text, mark, '\n', s, m) implies start <= s
            && (s == start ==> m <= mid) by {
            split_on_a_later_line(first, rest, mark, s, m);
            if is_split(first, mark, '\n', s, m) {
            } else {
                assert(is_split(rest, mark, '\n', s - from, m - from));
            }
        }
        assert(is_found_split(text, mark, '\n', start, mid));
        found_split_is_given(text, mark, '\n', start, mid);
        found_split_is_given(first, mark, '\n', start, mid);
        let behind = mid + mark.len();
        run_goes_on(first, '\n', behind);
        line_ends(first, rest, behind);
        assert(text.subrange(start, mid) =~= first.subrange(start, mid));
        assert(text.subrange(behind, first.len() as int) =~= first.subrange(
            behind,
            first.len() as int,
        ));
    } else {
        last_split_is_found(first, mark);
        assert forall|s: int, m: int| !is_split(first, mark, '\n', s, m) by {
            if is_split(first, mark, '\n', s, m) {
                let a = first.take(m);
                let b = first.skip(m + mark.len());
                assert(first =~= a + first.subrange(m, m + mark.len()) + b);
                assert(first == a + mark + b);
            }
        }
        assert forall|s: int, m: int|
            is_found_split(text, mark, '\n', s, m) == is_found_split(
                rest,
                mark,
                '\n',
                s - from,
                m - from,
            ) by {
            later_split_is_found(first, rest, mark, s, m);
        }
        if split_around(rest, mark, '\n') is Some {
            let (s, m) = choose|s: int, m: int| is_found_split(rest, mark, '\n', s, m);
            assert(is_found_split(rest, mark, '\n', s, m));
            let start = s + from;
            let mid = m + from;
            assert(is_found_split(rest, mark, '\n', start - from, mid - from));
            assert(is_found_split(text, mark, '\n', start, mid));
            found_split_is_given(text, mark, '\n', start, mid);
            found_split_is_given(rest, mark, '\n', s, m);
            run_on_a_later_line(first + seq!['\n'], rest, '\n', m + mark.len());
            let end = run_end(rest, '\n', m + mark.len());
            run_is_a_run(rest, '\n', m + mark.len());
            assert(text.subrange(start, mid) =~= rest.subrange(s, m));
            assert(text.subrange(mid + mark.len(), end + from) =~= rest.subrange(
                m + mark.len(),
                end,
            ));
        } else {
            assert forall|s: int, m: int| !is_found_split(text, mark, '\n', s, m) by {
                assert(!is_found_split(rest, mark, '\n', s - from, m - from));
            }
        }
    }
}

/// Where the first line has no split, the split that is found is that of the rest.
proof fn later_split_is_found(
    first: Seq<char>,
    rest: Seq<char>,
    mark: Seq<char>,
    start: int,
    mid: int,
)
    requires
        is_without(first, '\n'),
        is_without(mark, '\n'),
        mark.len() > 0,
        forall|s: int, m: int| !is_split(first, mark, '\n', s, m),
    ensures
        is_found_split(first + seq!['\n'] + rest, mark, '\n', start, mid) == is_found_split(
            rest,
            mark,
            '\n',
            start - first.len() - 1,
            mid - first.len() - 1,
        ),
{
    let text = first + seq!['\n'] + rest;
    let from = first.len() + 1;
    split_on_a_later_line(first, rest, mark, start, mid);
    if is_found_split(text, mark, '\n', start, mid) {
        assert forall|s: int, m: int| #[trigger] is_split(rest, mark, '\n', s, m) implies start
            - from <= s && (s == start - from ==> m <= mid - from) by {
            let t = s + from;
            let u = m + from;
            assert(is_split(rest, mark, '\n', t - from, u - from));
            split_on_a_later_line(first, rest, mark, t, u);
            assert(is_split(text, mark, '\n', t, u));
        }
    }
    if is_found_split(rest, mark, '\n', start - from, mid - from) {
        assert forall|s: int, m: int| #[trigger] is_split(text, mark, '\n', s, m) implies start <= s
            && (s == start ==> m <= mid) by {
            split_on_a_later_line(first, rest, mark, s, m);
            assert(is_split(rest, mark, '\n', s - from, m - from));
        }
    }
}

/// A run on the first line ends with it.
proof fn line_ends(first: Seq<char>, rest: Seq<char>, from: int)
    requires
        is_without(first, '\n'),
        0 <= from <= first.len(),
    ensures
        run_end(first + seq!['\n'] + rest, '\n', from) == first.len(),
    decreases first.len() - from,
{
    let text = first + seq!['\n'] + rest;
    if from < first.len() {
        assert(text[from] == first[from]);
        line_ends(first, rest, from + 1);
    } else {
        assert(text[from] == '\n');
    }
}

/// A path of several lines is taken apart on the first of them that names what is looked for.
pub proof fn paths_are_taken_apart_by_lines(first: Seq<char>, rest: Seq<char>)
    requires
        is_without(first, '\n'),
    ensures
        ({
            let path = first + seq!['\n'] + rest;
            &&& manifest_parts(first) is Some ==> manifest_parts(path) == manifest_parts(first)
            &&& manifest_parts(first) is None ==> manifest_parts(path) == manifest_parts(rest)
            &&& upload_parts(first) is Some ==> upload_parts(path) == upload_parts(first)
            &&& upload_parts(first) is None ==> upload_parts(path) == upload_parts(rest)
            &&& blob_part(first) is Some ==> blob_part(path) == blob_part(first)
            &&& blob_part(first) is None ==> blob_part(path) == blob_part(rest)
        }),
{
    assert(is_without("/manifests/"@, '\n') && "/manifests/"@.len() > 0) by {
        reveal_strlit("/manifests/");
    }
    assert(is_without("/blobs/uploads/"@, '\n') && "/blobs/uploads/"@.len() > 0) by {
        reveal_strlit("/blobs/uploads/");
    }
    assert(is_without("/blobs/"@, '\n') && "/blobs/"@.len() > 0) by {
        reveal_strlit("/blobs/");
    }
    first_line_is_split_first(first, rest, "/manifests/"@);
    first_line_is_split_first(first, rest, "/blobs/uploads/"@);
    first_line_is_split_first(first, rest, "/blobs/"@);
}

/// Where the line begins that the end of a text is on.
proof fn line_starts_behind_break(front: Seq<char>, last: Seq<char>, at: int)
    requires
        is_without(last, '\n'),
        0 <= at <= last.len(),
    ensures
        line_start(front + seq!['\n'] + last, front.len() + 1 + at) == front.len() + 1,
    decreases at,
{
    let text = front + seq!['\n'] + last;
    let place = front.len() + 1 + at;
    if at > 0 {
        assert(text[place - 1] == last[at - 1]);
        line_starts_behind_break(front, last, at - 1);
    } else {
        assert(text[place - 1] == '\n');
    }
}

/// What stands before the end of a text stands on its last line.
proof fn last_line_has_the_end(front: Seq<char>, last: Seq<char>, mark: Seq<char>)
    requires
        is_without(last, '\n'),
        is_without(mark, '\n'),
        mark.len() > 0,
    ensures
        before_end(front + seq!['\n'] + last, mark) == before_end(last, mark),
{
    let text = front + seq!['\n'] + last;
    let from = front.len() + 1;
    let mid = text.len() - mark.len();
    let place = last.len() - mark.len();
    assert(text[front.len() as int] == '\n');
    if place > 0 {
        assert(text.subrange(mid, text.len() as int) =~= last.subrange(place, last.len() as int));
        assert(text[mid - 1] == last[place - 1]);
        line_starts_behind_break(front, last, place);
        one_line_starts_at_once(last, place);
        assert(text.subrange(from as int, mid) =~= last.subrange(0, place));
    } else if place == 0 {
        assert(text[mid - 1] == '\n');
    } else if mid >= 0 && occurs_at(text, mark, mid) {
        let at = front.len() - mid;
        assert(text.subrange(mid, mid + mark.len())[at] == mark[at]);
    }
}

/// A path of several lines starts an upload just where its last line does.
pub proof fn last_line_starts_the_upload(front: Seq<char>, last: Seq<char>)
    requires
        is_without(last, '\n'),
    ensures
        uploads_name(front + seq!['\n'] + last) == uploads_name(last),
{
    assert(is_without("/blobs/uploads"@, '\n') && "/blobs/uploads"@.len() > 0) by {
        reveal_strlit("/blobs/uploads");
    }
    assert(is_without("/blobs/uploads/"@, '\n') && "/blobs/uploads/"@.len() > 0) by {
        reveal_strlit("/blobs/uploads/");
    }
    last_line_has_the_end(front, last, "/blobs/uploads"@);
    last_line_has_the_end(front, last, "/blobs/uploads/"@);
}

} // verus!
