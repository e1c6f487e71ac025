//! The seed directory, as requests use it: where things lie, what is done there, what comes of it.
use crate::routes::{is_without, text_view};
use vstd::prelude::*;

verus! {

/// The seed directory, where no other is named.
pub const SEED_DIR: &'static str = "/zarf-seed";

/// The seed directory: the one that the environment names, or else the usual one.
pub open spec fn seed_path(named: Option<Seq<char>>) -> Seq<char> {
    match named {
        Some(path) => path,
        None => SEED_DIR@,
    }
}

/// The seed directory: the one that the environment names, or else the usual one.
pub fn seed_dir(named: Option<String>) -> (path: String)
    ensures
        path@ == seed_path(text_view(named)),
{
    match named {
        Some(path) => path,
        None => SEED_DIR.to_owned(),
    }
}

/// A place under the seed directory.
pub enum Location<T> {
    /// The image index.
    Index,
    /// The directory of the blobs.
    Blobs,
    /// The blob with a given hash.
    Blob(T),
    /// The directory of the unfinished uploads.
    Uploads,
    /// The unfinished upload with a given id.
    Upload(T),
}

/// One thing that a request needs done.
pub enum Action<T, B> {
    /// Read what was sent with the request.
    ReadBody,
    /// Take the time, in nanoseconds since 1970, and the id of the process.
    TakeStamp,
    /// Read a file as text.
    ReadText(Location<T>),
    /// Read a file.
    ReadBytes(Location<T>),
    /// See whether there is a file.
    Look(Location<T>),
    /// Take the size of a file.
    Measure(Location<T>),
    /// Open a file, to send it.
    Open(Location<T>),
    /// Take the size of the file that was opened.
    MeasureOpened,
    /// Make a directory, and those it lies in.
    MakeDir(Location<T>),
    /// Write a file.
    Write(Location<T>, B),
    /// Delete a file.
    Delete(Location<T>),
}

/// What came of an action.
pub enum Event<T, B> {
    /// What was sent, where it could be read.
    Body(Option<B>),
    Stamp { nanos: u128, pid: u32 },
    /// The text of a file, where it could be read.
    Text(Option<T>),
    /// The bytes of a file, where they could be read.
    Bytes(Option<B>),
    /// Whether there is a file.
    Seen(bool),
    /// The size of a file, where it could be taken.
    Size(Option<u64>),
    /// The file was opened, or why not.
    Opened(Result<(), T>),
    /// Whether a directory was made, or a file written or deleted.
    Done(bool),
}

impl<T, B> Event<T, B> {
    /// This can come of `action`.
    pub open spec fn answers<U, C>(self, action: Action<U, C>) -> bool {
        match action {
            Action::ReadBody => self is Body,
            Action::TakeStamp => self is Stamp,
            Action::ReadText(_) => self is Text,
            Action::ReadBytes(_) => self is Bytes,
            Action::Look(_) => self is Seen,
            Action::Measure(_) => self is Size,
            Action::Open(_) => self is Opened,
            Action::MeasureOpened => self is Size,
            Action::MakeDir(_) => self is Done,
            Action::Write(_, _) => self is Done,
            Action::Delete(_) => self is Done,
        }
    }
}

impl View for Location<String> {
    type V = Location<Seq<char>>;

    open spec fn view(&self) -> Location<Seq<char>> {
        match self {
            Location::Index => Location::Index,
            Location::Blobs => Location::Blobs,
            Location::Blob(hash) => Location::Blob(hash@),
            Location::Uploads => Location::Uploads,
            Location::Upload(id) => Location::Upload(id@),
        }
    }
}

impl<'a> View for Action<String, &'a [u8]> {
    type V = Action<Seq<char>, Seq<u8>>;

    open spec fn view(&self) -> Action<Seq<char>, Seq<u8>> {
        match self {
            Action::ReadBody => Action::ReadBody,
            Action::TakeStamp => Action::TakeStamp,
            Action::ReadText(at) => Action::ReadText(at@),
            Action::ReadBytes(at) => Action::ReadBytes(at@),
            Action::Look(at) => Action::Look(at@),
            Action::Measure(at) => Action::Measure(at@),
            Action::Open(at) => Action::Open(at@),
            Action::MeasureOpened => Action::MeasureOpened,
            Action::MakeDir(at) => Action::MakeDir(at@),
            Action::Write(at, bytes) => Action::Write(at@, bytes@),
            Action::Delete(at) => Action::Delete(at@),
        }
    }
}

impl View for Event<String, Vec<u8>> {
    type V = Event<Seq<char>, Seq<u8>>;

    open spec fn view(&self) -> Event<Seq<char>, Seq<u8>> {
        match self {
            Event::Body(Some(bytes)) => Event::Body(Some(bytes@)),
            Event::Body(None) => Event::Body(None),
            Event::Stamp { nanos, pid } => Event::Stamp { nanos: *nanos, pid: *pid },
            Event::Text(Some(text)) => Event::Text(Some(text@)),
            Event::Text(None) => Event::Text(None),
            Event::Bytes(Some(bytes)) => Event::Bytes(Some(bytes@)),
            Event::Bytes(None) => Event::Bytes(None),
            Event::Seen(seen) => Event::Seen(*seen),
            Event::Size(size) => Event::Size(*size),
            Event::Opened(Ok(())) => Event::Opened(Ok(())),
            Event::Opened(Err(reason)) => Event::Opened(Err(reason@)),
            Event::Done(done) => Event::Done(*done),
        }
    }
}

/// `name` names a file in the directory that it is looked up in, and nothing else: it is not empty,
/// leads into no other directory, and is not one of the two names that every directory has.
pub open spec fn is_plain(name: Seq<char>) -> bool {
    &&& name.len() > 0
    &&& is_without(name, '/')
    &&& name != seq!['.']
    &&& name != seq!['.', '.']
}

/// The place lies where its kind says, and is reached by no other name.
pub open spec fn is_plain_place(at: Location<Seq<char>>) -> bool {
    match at {
        Location::Blob(hash) => is_plain(hash),
        Location::Upload(id) => is_plain(id),
        _ => true,
    }
}

/// The path of a place, from the seed directory on.
pub open spec fn path_of(at: Location<Seq<char>>) -> Seq<Seq<char>> {
    match at {
        Location::Index => seq!["index.json"@],
        Location::Blobs => seq!["blobs"@, "sha256"@],
        Location::Blob(hash) => seq!["blobs"@, "sha256"@, hash],
        Location::Uploads => seq![".uploads"@],
        Location::Upload(id) => seq![".uploads"@, id],
    }
}

impl Location<String> {
    /// The path of this place, from the seed directory on.
    pub fn path(&self) -> (parts: Vec<&str>)
        ensures
            parts@.map_values(|part: &str| part@) == path_of(self@),
    {
        let parts = match self {
            Location::Index => vec!["index.json"],
            Location::Blobs => vec!["blobs", "sha256"],
            Location::Blob(hash) => vec!["blobs", "sha256", hash.as_str()],
            Location::Uploads => vec![".uploads"],
            Location::Upload(id) => vec![".uploads", id.as_str()],
        };
        assert(parts@.map_values(|part: &str| part@) =~= path_of(self@));
        parts
    }
}

/// Different places lie at different paths: uploads with different ids in different files, blobs
/// with different hashes in different files, and neither where the other or the index lies.
pub proof fn places_lie_apart(a: Location<Seq<char>>, b: Location<Seq<char>>)
    ensures
        path_of(a) == path_of(b) ==> a == b,
{
    reveal_strlit("index.json");
    reveal_strlit("blobs");
    reveal_strlit("sha256");
    reveal_strlit(".uploads");
    let x = path_of(a);
    let y = path_of(b);
    if x == y {
        assert(x.len() == y.len());
        assert(x[0] == y[0]);
        assert("blobs"@.len() == 5 && ".uploads"@.len() == 8 && "index.json"@.len() == 10);
        match (a, b) {
            (Location::Blob(_), Location::Blob(_)) => {
                assert(x[2] == y[2]);
            },
            (Location::Upload(_), Location::Upload(_)) => {
                assert(x[1] == y[1]);
            },
            _ => {},
        }
    }
}

/// Where things lie: each file bears its own name, in the directory of its kind.
pub proof fn places_bear_their_names(name: Seq<char>)
    ensures
        path_of(Location::Blobs).push(name) == path_of(Location::Blob(name)),
        path_of(Location::Uploads).push(name) == path_of(Location::Upload(name)),
        path_of(Location::Blob(name)) == seq!["blobs"@, "sha256"@, name],
        path_of(Location::Upload(name)) == seq![".uploads"@, name],
        path_of(Location::Index) == seq!["index.json"@],
{
    assert(path_of(Location::Blobs).push(name) =~= path_of(Location::Blob(name)));
    assert(path_of(Location::Uploads).push(name) =~= path_of(Location::Upload(name)));
}

/// A place is what it says, and so are what is done there and what comes of it.
pub proof fn places_say_what_they_are(name: String, bytes: &[u8], at: Location<String>)
    ensures
        Location::Blob(name)@ == Location::Blob(name@),
        Location::Upload(name)@ == Location::Upload(name@),
        Location::<String>::Index@ == Location::<Seq<char>>::Index,
        Location::<String>::Blobs@ == Location::<Seq<char>>::Blobs,
        Location::<String>::Uploads@ == Location::<Seq<char>>::Uploads,
        Action::<String, &[u8]>::Write(at, bytes)@ == Action::<Seq<char>, Seq<u8>>::Write(
            at@,
            bytes@,
        ),
        Action::<String, &[u8]>::ReadText(at)@ == Action::<Seq<char>, Seq<u8>>::ReadText(at@),
        Action::<String, &[u8]>::ReadBytes(at)@ == Action::<Seq<char>, Seq<u8>>::ReadBytes(at@),
        Action::<String, &[u8]>::Look(at)@ == Action::<Seq<char>, Seq<u8>>::Look(at@),
        Action::<String, &[u8]>::Measure(at)@ == Action::<Seq<char>, Seq<u8>>::Measure(at@),
        Action::<String, &[u8]>::Open(at)@ == Action::<Seq<char>, Seq<u8>>::Open(at@),
        Action::<String, &[u8]>::MakeDir(at)@ == Action::<Seq<char>, Seq<u8>>::MakeDir(at@),
        Action::<String, &[u8]>::Delete(at)@ == Action::<Seq<char>, Seq<u8>>::Delete(at@),
{
}

/// What came of an action is what it says.
pub proof fn outcomes_say_what_they_are(
    bytes: Vec<u8>,
    text: String,
    size: Option<u64>,
    done: bool,
    nanos: u128,
    pid: u32,
)
    ensures
        (Event::<String, Vec<u8>>::Stamp { nanos, pid })@ == (Event::<Seq<char>, Seq<u8>>::Stamp {
            nanos,
            pid,
        }),
        Event::<String, Vec<u8>>::Body(Some(bytes))@ == Event::<Seq<char>, Seq<u8>>::Body(
            Some(bytes@),
        ),
        Event::<String, Vec<u8>>::Bytes(Some(bytes))@ == Event::<Seq<char>, Seq<u8>>::Bytes(
            Some(bytes@),
        ),
        Event::<String, Vec<u8>>::Text(Some(text))@ == Event::<Seq<char>, Seq<u8>>::Text(
            Some(text@),
        ),
        Event::<String, Vec<u8>>::Opened(Err(text))@ == Event::<Seq<char>, Seq<u8>>::Opened(
            Err(text@),
        ),
        Event::<String, Vec<u8>>::Size(size)@ == Event::<Seq<char>, Seq<u8>>::Size(size),
        Event::<String, Vec<u8>>::Seen(done)@ == Event::<Seq<char>, Seq<u8>>::Seen(done),
        Event::<String, Vec<u8>>::Done(done)@ == Event::<Seq<char>, Seq<u8>>::Done(done),
        Event::<String, Vec<u8>>::Opened(Ok(()))@ == Event::<Seq<char>, Seq<u8>>::Opened(Ok(())),
        Event::<String, Vec<u8>>::Body(None)@ == Event::<Seq<char>, Seq<u8>>::Body(None),
        Event::<String, Vec<u8>>::Bytes(None)@ == Event::<Seq<char>, Seq<u8>>::Bytes(None),
        Event::<String, Vec<u8>>::Text(None)@ == Event::<Seq<char>, Seq<u8>>::Text(None),
{
}

/// A name is plain just where it is not empty, holds no slash, and is neither one dot nor two.
pub proof fn plain_names_are_these(name: Seq<char>)
    ensures
        is_plain(name) <==> name.len() > 0 && !name.contains('/') && name != "."@ && name != ".."@,
{
    reveal_strlit(".");
    reveal_strlit("..");
    assert("."@ =~= seq!['.'] && ".."@ =~= seq!['.', '.']);
    assert(is_without(name, '/') <==> !name.contains('/'));
}

/// The seed directory is the one that is named, and `/zarf-seed` where none is.
pub proof fn seed_directory_can_be_named(path: Seq<char>)
    ensures
        seed_path(Some(path)) == path,
        seed_path(None) == "/zarf-seed"@,
{
}

} // verus!
