//! Converts a zsh on-disk command history into a normalized sequence of
//! timestamped command entries, suitable for re-emission in fish's format.
//!
//! The core is a small parsing and decoding pipeline:
//! raw bytes -> [`codec`] (reverses zsh's high-bit escaping) -> decoded line
//! -> [`parser`] (classifies the line) -> optional [`entry::Entry`]
//! -> appended in file order by [`builder`].

use vstd::prelude::*;

pub mod builder;
pub mod codec;
pub mod converter;
pub mod entry;
pub mod parser;

pub use converter::{Converter, Initialized, State, Uninitialized};
pub use entry::Entry;

verus! {

} // verus!
