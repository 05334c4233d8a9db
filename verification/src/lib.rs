//! A minimal content-addressable object store: byte payloads are framed with a
//! kind/length header, identified by the hex digest of the frame, compressed at
//! rest, and placed under a path derived from the identity alone.

pub mod cli;
pub mod codec;
pub mod digest;
pub mod error;
pub mod store;
pub mod zlib;

use vstd::prelude::*;

verus! {

} // verus!
