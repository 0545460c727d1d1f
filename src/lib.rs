//! Core of an IRC client connection: the line codec, the command emitter
//! and the connection state that the event loop drives.
use vstd::prelude::*;

pub mod bytes;
pub mod user;
pub mod command;
pub mod line;
pub mod emit;
pub mod conn;
pub mod codec_laws;
pub mod event_loop;

verus! {

} // verus!
