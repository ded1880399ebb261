//! Decoder and extractor for FSG archive images.
//!
//! An FSG image packs a directory tree and file contents into one or more
//! sequentially numbered part files. The library presents the parts as one
//! seekable byte stream, decodes the fixed-layout header and the hash index,
//! and reconstructs the directory tree by re-hashing candidate path strings
//! found in directory listings and matching them against the index.

use vstd::prelude::*;

pub mod stream;
pub mod hash;
pub mod decode;
pub mod resolve;

verus! {

/// Failure modes of archive decoding and extraction.
#[derive(Clone, Copy, PartialEq, Eq, Structural, Debug)]
pub enum Error {
    /// The 16-byte magic signature did not match.
    InvalidFormat,
    /// The stream ended before an expected field, listing terminator,
    /// or file byte range.
    TruncatedInput,
    /// Directory nesting exceeded the caller's recursion guard.
    RecursionLimit,
}

} // verus!
