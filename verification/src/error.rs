//! Failure kinds of the store. Every codec or store failure aborts the current
//! operation and is surfaced to the caller; none is retried or downgraded.

use vstd::prelude::*;

verus! {

/// Everything that can go wrong while writing, reading or rendering an object.
#[derive(Clone, Copy, Debug, PartialEq, Eq, Structural)]
pub enum ObjectError {
    /// The store root or its objects directory is missing.
    UninitializedStore,
    /// The identity has no corresponding object file.
    ObjectNotFound,
    /// The stored bytes are not valid compressed data.
    CorruptObject,
    /// No NUL separator, no space separator, or a bad length token.
    MalformedHeader,
    /// A well-formed header whose kind tag is not recognized.
    UnknownKind,
    /// Fewer payload bytes present than the header declares.
    TruncatedObject,
    /// Bytes left over beyond the declared payload length.
    TrailingData,
    /// The caller asked for a rendering this store cannot perform.
    UnsupportedOperation,
    /// A filesystem failure outside the store's control.
    IOFailure,
}

impl ObjectError {
    /// A short diagnostic text for the caller to display.
    pub fn describe(&self) -> &'static str {
        match self {
            ObjectError::UninitializedStore => "store is not initialized",
            ObjectError::ObjectNotFound => "no object with this identity",
            ObjectError::CorruptObject => "stored bytes are not valid compressed data",
            ObjectError::MalformedHeader => "object header is malformed",
            ObjectError::UnknownKind => "object header names an unknown kind",
            ObjectError::TruncatedObject => "object payload is shorter than declared",
            ObjectError::TrailingData => "object has bytes beyond the declared payload",
            ObjectError::UnsupportedOperation => "operation is not supported for this object",
            ObjectError::IOFailure => "filesystem failure",
        }
    }
}

} // verus!
