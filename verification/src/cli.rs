//! The command surface as plain data: the subcommands the store serves and the
//! object kinds it recognizes. Argument parsing itself is I/O glue and lives
//! outside the library.

use vstd::prelude::*;

verus! {

/// Top-level invocation: exactly one subcommand.
pub struct Args {
    pub command: CLICommand,
}

/// The subcommands the store serves.
pub enum CLICommand {
    /// Create the store's directory skeleton.
    Init,
    /// Decode one object and emit its payload verbatim.
    CatFile { pretty_print: bool, object_hash: String },
    /// Frame, hash, compress and persist one payload.
    HashObject { write: bool, filename: String },
    /// Decode one directory-listing object and emit its raw payload.
    LsTree { name_only: bool, tree_hash: String },
}

/// The closed set of object kinds this store recognizes. A `Tree` payload is
/// carried as opaque bytes; its entry structure is not decoded.
#[derive(Clone, Copy, Debug, PartialEq, Eq, Structural)]
pub enum Kind {
    Blob,
    Tree,
}

} // verus!
