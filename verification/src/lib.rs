//! `stringsext` searches for encoded strings in binary data.
//!
//! The library runs a configurable set of search *missions* — each binding one
//! character encoding to a post-decode filter — over a stream of input
//! windows, and collects the strings it finds, annotated with their byte
//! position in the input stream, into ordered collections that can be merged
//! into one deterministic output sequence.

pub mod codec;
pub mod encodings;
pub mod finding;
pub mod finding_collection;
pub mod helper;
pub mod merge;
pub mod mission;
pub mod names;
pub mod options;
pub mod scanner;

use vstd::prelude::*;

verus! {

/// The type used to count bytes of the input stream.
pub type ByteCounter = u64;

} // verus!
