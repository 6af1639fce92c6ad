//! The reader's rule identifiers and the fixed parts of its messages.

use vstd::prelude::*;

verus! {

/// The bytes could not be read as a YAML document at all.
pub const WELL_FORMED: &'static str = "R-READ-WELL-FORMED";

/// The document uses an anchor or an alias.
pub const ALIAS: &'static str = "R-READ-ALIAS";

/// One mapping declares the same key twice.
pub const DUPLICATE_KEY: &'static str = "R-READ-DUPLICATE-KEY";

/// The text holds more than one document.
pub const SINGLE_DOCUMENT: &'static str = "R-READ-SINGLE-DOCUMENT";

/// A mapping key is not a string.
pub const KEY_TYPE: &'static str = "R-READ-KEY-TYPE";

/// A node is something other than a scalar, a sequence or a mapping.
pub const TREE_ONLY: &'static str = "R-READ-TREE-ONLY";

pub const NOT_UTF8: &'static str = " is not valid UTF-8: ";

pub const NOT_YAML: &'static str = " is not valid YAML: ";

pub const USES_ALIAS: &'static str =
    " uses a YAML anchor or alias; neither is part of the format, and expanding an alias can turn a few hundred bytes into millions of nodes";

pub const DECLARES: &'static str = " declares `";

pub const TWICE: &'static str =
    "` twice in one mapping; the same name at different addresses is legal, one address written twice is not";

pub const CONTAINS: &'static str = " contains ";

pub const DOCUMENTS: &'static str = " YAML documents; an object is exactly one";

pub const NON_STRING_KEY: &'static str = " has a non-string mapping key; node names are strings";

pub const UNREAD_CONSTRUCT: &'static str =
    " uses a YAML construct this model does not read (alias, tag or bad value)";

} // verus!
