//! A small OCI registry that serves, and takes, the images of a seed directory.
//!
//! A request begins as a [`session::Session`]. The session asks for one action after another: to
//! read what was sent, to read or write a file under the seed directory. Each outcome takes it a
//! step further, until it has its reply. What the program around the library does is perform the
//! actions; every decision is made, and proved, here.

pub mod answers;
pub mod digest;
pub mod index;
pub mod json;
pub mod kept;
pub mod laws;
pub mod payload;
pub mod pull;
pub mod push;
pub mod reply;
pub mod routes;
pub mod session;
pub mod storage;
pub mod text;
pub mod upload;
pub mod world;
