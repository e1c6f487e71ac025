//! Requests from their beginning to their reply, over files that can be read and written.
use crate::digest::{hash_is_hexadecimal, hash_of, is_hex_digit};
use crate::session::SessionView;
use crate::storage::{is_plain, is_plain_place, Action, Event, Location};
use vstd::pervasive::arbitrary;
use vstd::prelude::*;
use vstd::utf8::{decode_utf8, valid_utf8};

verus! {

/// What a request meets: the files, and what was sent with it.
pub struct World {
    /// The files that there are, by their places. Places with plain names are meant, none of which
    /// is reached in two ways.
    pub files: Map<Location<Seq<char>>, Seq<u8>>,
    /// What was sent with the request.
    pub body: Seq<u8>,
    /// The time.
    pub nanos: u128,
    /// The id of the process.
    pub pid: u32,
    /// Why a file that is not there cannot be opened.
    pub reason: Seq<char>,
    /// The file that was opened, to be sent.
    pub opened: Option<Location<Seq<char>>>,
}

/// The size of a file, where it is there.
pub open spec fn size_of(world: World, at: Location<Seq<char>>) -> Option<u64> {
    if world.files.contains_key(at) {
        Some(world.files[at].len() as u64)
    } else {
        None
    }
}

/// A hash is a plain name.
pub proof fn hash_is_plain(bytes: Seq<u8>)
    ensures
        is_plain(hash_of(bytes)),
{
    let hash = hash_of(bytes);
    hash_is_hexadecimal(bytes);
    assert forall|i: int| 0 <= i < hash.len() implies #[trigger] hash[i] != '/' by {
        assert(is_hex_digit(hash[i]));
    }
}

/// The action leads to a place with a plain name, or to none.
pub open spec fn is_plain_action(action: Action<Seq<char>, Seq<u8>>) -> bool {
    match action {
        Action::ReadBody | Action::TakeStamp | Action::MeasureOpened => true,
        Action::ReadText(at) => is_plain_place(at),
        Action::ReadBytes(at) => is_plain_place(at),
        Action::Look(at) => is_plain_place(at),
        Action::Measure(at) => is_plain_place(at),
        Action::Open(at) => is_plain_place(at),
        Action::MakeDir(at) => is_plain_place(at),
        Action::Write(at, _) => is_plain_place(at),
        Action::Delete(at) => is_plain_place(at),
    }
}

/// What comes of an action where nothing fails: a file can be read if it is there, and anything can
/// be written. Of an action that leads elsewhere than to a plain name nothing is said.
pub open spec fn outcome(world: World, action: Action<Seq<char>, Seq<u8>>) -> Event<
    Seq<char>,
    Seq<u8>,
> {
    if is_plain_action(action) {
        plain_outcome(world, action)
    } else {
        arbitrary()
    }
}

/// What comes of an action that leads to a plain name, or to no place.
pub open spec fn plain_outcome(world: World, action: Action<Seq<char>, Seq<u8>>) -> Event<
    Seq<char>,
    Seq<u8>,
> {
    match action {
        Action::ReadBody => Event::Body(Some(world.body)),
        Action::TakeStamp => Event::Stamp { nanos: world.nanos, pid: world.pid },
        Action::ReadText(at) => Event::Text(
            if world.files.contains_key(at) && valid_utf8(world.files[at]) {
                Some(decode_utf8(world.files[at]))
            } else {
                None
            },
        ),
        Action::ReadBytes(at) => Event::Bytes(
            if world.files.contains_key(at) {
                Some(world.files[at])
            } else {
                None
            },
        ),
        Action::Look(at) => Event::Seen(world.files.contains_key(at)),
        Action::Measure(at) => Event::Size(size_of(world, at)),
        Action::Open(at) => Event::Opened(
            if world.files.contains_key(at) {
                Ok(())
            } else {
                Err(world.reason)
            },
        ),
        Action::MeasureOpened => Event::Size(
            match world.opened {
                Some(at) => size_of(world, at),
                None => None,
            },
        ),
        Action::MakeDir(_) => Event::Done(true),
        Action::Write(_, _) => Event::Done(true),
        Action::Delete(at) => Event::Done(world.files.contains_key(at)),
    }
}

/// The world once an action is done. Of one that leads elsewhere than to a plain name nothing is
/// said.
pub open spec fn once_done(world: World, action: Action<Seq<char>, Seq<u8>>) -> World {
    if is_plain_action(action) {
        plain_change(world, action)
    } else {
        arbitrary()
    }
}

/// The world once an action is done that leads to a plain name, or to no place.
pub open spec fn plain_change(world: World, action: Action<Seq<char>, Seq<u8>>) -> World {
    match action {
        Action::Write(at, bytes) => World { files: world.files.insert(at, bytes), ..world },
        Action::Delete(at) => World { files: world.files.remove(at), ..world },
        Action::Open(at) => World {
            opened: if world.files.contains_key(at) {
                Some(at)
            } else {
                world.opened
            },
            ..world
        },
        _ => world,
    }
}

/// The request after at most `steps` outcomes, and the world it leaves. Nothing where it is dropped
/// without a reply.
pub open spec fn run(session: SessionView, world: World, steps: nat) -> (
    Option<SessionView>,
    World,
)
    decreases steps,
{
    match session.action() {
        Some(action) => if steps == 0 {
            (Some(session), world)
        } else {
            match session.after(outcome(world, action)) {
                Some(next) => run(next, once_done(world, action), (steps - 1) as nat),
                None => (None, once_done(world, action)),
            }
        },
        None => (Some(session), world),
    }
}

/// The request at its end, and the world it leaves. Seven outcomes are enough for every request.
pub open spec fn served(session: SessionView, world: World) -> (Option<SessionView>, World) {
    run(session, world, 7)
}

} // verus!
