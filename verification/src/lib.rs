//! Path mapping and link-consistency rules for a shadow directory: files are
//! moved under a shadow root and replaced by symbolic links at their former
//! locations.
//!
//! - `path`: lexical paths, and the way from one location to another.
//! - `round_trip`: the way leads back; written text reads back.
//! - `link`: what stands where a link belongs.
//! - `cli`: what the command line asks for.
//! - `protocol`: the actions that the rules ask for, and the events that
//!   answer them.
//! - `rules`: the operations as a state machine over plain values.
//! - `session`: an operation in progress, verified against `rules`.
//! - `guarantees`: what holds of every operation, whatever the
//!   filesystem answers.
//! - `world`, `outcomes`, `restoring`: a model of the filesystem, and what
//!   the operations achieve in it.
pub mod cli;
pub mod guarantees;
pub mod link;
pub mod outcomes;
pub mod path;
pub mod protocol;
pub mod restoring;
pub mod round_trip;
pub mod rules;
pub mod session;
pub mod world;

pub use path::make_path_relative_to;
