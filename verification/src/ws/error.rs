//! Why a message or a book is refused.

use vstd::prelude::*;

verus! {

/// Why a feed, a message or a book was refused.
#[derive(Copy, Clone, Debug, PartialEq, Eq, Structural)]
pub enum Error {
    /// A frame was unexpected: it came where none can be read.
    Protocol,
    /// A message was structurally invalid or held a malformed number.
    Parse,
    /// A side of a message held fewer levels than the book needs.
    InsufficientDepth,
}

} // verus!
