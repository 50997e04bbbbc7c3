//! The converter state machine.
//!
//! Conversion is a two-step workflow: a converter is first known only by the
//! path of the history file, and only a converter that holds the file's
//! bytes can convert. The type parameter tracks the step, so that
//! conversion before initialization does not typecheck. The surrounding
//! program validates and reads the file; the converter itself never touches
//! the file system.

use vstd::prelude::*;

use crate::builder::{build, entries_of, views_of};
use crate::codec;
use crate::codec::{decoded, lossy_utf8};
use crate::entry::Entry;

verus! {

/// A marker trait to represent the state of the converter.
pub trait State {

}

/// A zsh history to fish history converter. To prevent the impossible
/// operation from executing (i.e. run convert before the history file has
/// been read), the state of the converter is tracked in its type. The state
/// transitions are:
///
/// Uninitialized -> Initialized
pub struct Converter<S: State> {
    state: S,
}

/// The uninitialized state of the converter: only the path of the zsh
/// history file is known.
pub struct Uninitialized {
    /// The path to the zsh history file.
    pub zsh_history: String,
}

impl State for Uninitialized {

}

/// The initialized state of the converter: the raw bytes of the history
/// file, read in full.
pub struct Initialized {
    bytes: Vec<u8>,
}

impl State for Initialized {

}

impl View for Converter<Uninitialized> {
    type V = Seq<char>;

    closed spec fn view(&self) -> Seq<char> {
        self.state.zsh_history@
    }
}

impl View for Converter<Initialized> {
    type V = Seq<u8>;

    closed spec fn view(&self) -> Seq<u8> {
        self.state.bytes@
    }
}

impl Converter<Uninitialized> {
    /// A converter that knows the path of the history file but has not read
    /// it yet.
    pub fn from_path(zsh_history: String) -> (c: Self)
        ensures
            c@ == zsh_history@,
    {
        Converter { state: Uninitialized { zsh_history } }
    }

    /// The path to the zsh history file.
    pub fn path(&self) -> (p: &String)
        ensures
            p@ == self@,
    {
        &self.state.zsh_history
    }
}

impl Converter<Initialized> {
    /// A converter holding the raw bytes of a history file.
    pub fn from_bytes(bytes: Vec<u8>) -> (c: Self)
        ensures
            c@ == bytes@,
    {
        Converter { state: Initialized { bytes } }
    }

    /// Decodes one raw record of the history file to text.
    pub fn decode(bytes: &[u8]) -> (r: String)
        ensures
            r@ == lossy_utf8(decoded(bytes@)),
    {
        codec::decode(bytes)
    }

    /// Converts the zsh history to the normalized entry sequence, in file
    /// order.
    pub fn convert(&self) -> (r: Vec<Entry>)
        ensures
            views_of(r@) == entries_of(self@),
    {
        build(self.state.bytes.as_slice())
    }
}

} // verus!
