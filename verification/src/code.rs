//! Stable rejection codes.

use vstd::prelude::*;

verus! {

/// The bytes are not a document this engine will read at all: bad encoding,
/// a duplicate mapping key, an alias, a non-string key, more than one
/// document. Raised at `Stage::Read`, before any tree exists.
pub const MALFORMED_DOCUMENT: &'static str = "E_MALFORMED_DOCUMENT";

/// A structural position holds something of the wrong arity: a mapping
/// where the grammar fixes a list, or the reverse. Raised at `Stage::Parse`.
pub const TYPE_MISMATCH: &'static str = "E_TYPE_MISMATCH";

} // verus!
