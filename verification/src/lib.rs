//! Repeating-key XOR transforms over byte sequences and file trees.
//!
//! The crate has two pieces: an XOR engine that combines a byte sequence
//! with a non-empty key, wrapping the key as needed, and a model of a
//! directory walk that applies the engine to every regular file of a tree.
//! Callers supply the bytes; reading and writing them is left to them.

pub mod engine;
pub mod key;
pub mod walk;

use vstd::prelude::*;

verus! {

/// The one failure the transforms themselves can report: a key with no
/// bytes, against which no input can be combined.
#[derive(Clone, Copy, Debug, PartialEq, Eq, Structural)]
pub enum XorError {
    EmptyKey,
}

} // verus!
