//! A minimal content-addressable object store and staging-index reader.
//!
//! The crate covers the storage layer of a small version-control tool:
//! the object codec (typed content to and from its canonical serialized
//! byte form), the content digest and its hexadecimal text form, the
//! tree-entry decoder, and the binary staging-index decoder. All decoding
//! is total over arbitrary input bytes: malformed input yields a typed
//! [`GitError`], never a panic.
use vstd::prelude::*;

pub mod digest;
pub mod index;
pub mod numbers;
pub mod object;
pub mod scan;
pub mod store;
pub mod text;
pub mod tree;

verus! {

/// Every failure a codec, decoder or store operation can report.
#[derive(Clone, Copy, Debug, PartialEq, Eq, Structural)]
pub enum GitError {
    /// A digest's textual form is not exactly 40 hexadecimal characters.
    MalformedDigest,
    /// A serialized object's kind label is not `blob`, `tree` or `commit`.
    UnknownObjectKind,
    /// A serialized object's declared decimal size does not match its
    /// content, or does not fit the declared 32-bit width.
    SizeMismatch,
    /// No object is stored under the requested digest.
    ObjectNotFound,
    /// A stored object's bytes do not decompress.
    CorruptObject,
    /// A numeric file mode is not one of the four valid codes.
    InvalidMode,
    /// A tree object's content ends in the middle of an entry.
    TruncatedTree,
    /// A name field does not decode as UTF-8.
    InvalidName,
    /// The staging index does not begin with the fixed signature.
    BadSignature,
    /// The staging index declares a version other than 2.
    UnsupportedVersion,
    /// A timestamp's nanosecond field is out of range.
    InvalidTimestamp,
    /// The staging index ends before a declared field or entry.
    TruncatedIndex,
}

} // verus!
