//! Rejections: code, rule, stage and path, plus a human-readable detail.

use vstd::prelude::*;

verus! {

/// The pipeline stage a rejection was raised at.
///
/// The order is the processing order, and it is total: every rejection belongs
/// to exactly one stage, and a stage may only reject what the stages before it
/// have already admitted.
#[derive(Debug, Clone, Copy, PartialEq, Eq, Structural)]
pub enum Stage {
    /// Bytes to a raw document: encoding, duplicate keys, aliases, key types.
    Read,
    /// Raw document to a typed composition: structural positions and members.
    Parse,
    /// Short forms to canonical forms, and schema defaults to explicit values.
    Normalize,
    /// Atomic, aggregate and shape references; inheritance chains; cycles.
    Resolve,
    /// Shape algebra, Role algebra, and the contracts that cross primitives.
    Validate,
    /// The single byte representation an IR digest is taken over.
    Canonicalize,
}

/// The lower-case name of a stage, as it appears in messages and vectors.
pub open spec fn stage_name(s: Stage) -> Seq<char> {
    match s {
        Stage::Read => "read"@,
        Stage::Parse => "parse"@,
        Stage::Normalize => "normalize"@,
        Stage::Resolve => "resolve"@,
        Stage::Validate => "validate"@,
        Stage::Canonicalize => "canonicalize"@,
    }
}

impl Stage {
    /// The stage's name.
    pub fn as_str(self) -> (r: &'static str)
        ensures
            r@ == stage_name(self),
    {
        match self {
            Stage::Read => "read",
            Stage::Parse => "parse",
            Stage::Normalize => "normalize",
            Stage::Resolve => "resolve",
            Stage::Validate => "validate",
            Stage::Canonicalize => "canonicalize",
        }
    }
}

/// Distinct stages have distinct names, so a stage can be told from its name.
pub proof fn stage_names_distinct(a: Stage, b: Stage)
    ensures
        stage_name(a) == stage_name(b) ==> a == b,
{
    reveal_strlit("read");
    reveal_strlit("parse");
    reveal_strlit("normalize");
    reveal_strlit("resolve");
    reveal_strlit("validate");
    reveal_strlit("canonicalize");
    if stage_name(a) == stage_name(b) {
        assert(stage_name(a).len() == stage_name(b).len());
        assert(stage_name(a)[0] == stage_name(b)[0]);
    }
}

/// The single error type this crate raises.
#[derive(Debug, Clone, PartialEq, Eq)]
pub struct Error {
    pub code: &'static str,
    pub rule: &'static str,
    pub stage: Stage,
    pub path: String,
    pub detail: String,
}

/// The result type of this crate's fallible operations.
pub type Result<T> = core::result::Result<T, Error>;

/// What a rejection says, as text.
pub struct ErrorView {
    pub code: Seq<char>,
    pub rule: Seq<char>,
    pub stage: Stage,
    pub path: Seq<char>,
    pub detail: Seq<char>,
}

impl View for Error {
    type V = ErrorView;

    open spec fn view(&self) -> ErrorView {
        ErrorView {
            code: self.code@,
            rule: self.rule@,
            stage: self.stage,
            path: self.path@,
            detail: self.detail@,
        }
    }
}

/// The rendering of a rejection: `code (rule) at path [stage name]: detail`.
pub open spec fn error_message(e: ErrorView) -> Seq<char> {
    e.code + " ("@ + e.rule + ") at "@ + e.path + " [stage "@ + stage_name(e.stage) + "]: "@
        + e.detail
}

/// A rejection with code `E_MALFORMED_DOCUMENT`.
pub open spec fn malformed(rule: Seq<char>, stage: Stage, path: Seq<char>, detail: Seq<char>) -> ErrorView {
    ErrorView { code: crate::code::MALFORMED_DOCUMENT@, rule, stage, path, detail }
}

/// The outcome `r` is the one described by `v`: both succeed, or both fail
/// with the same rejection.
pub open spec fn same_outcome<T>(r: core::result::Result<T, Error>, v: core::result::Result<(), ErrorView>) -> bool {
    match (r, v) {
        (Ok(_), Ok(_)) => true,
        (Err(e), Err(w)) => e@ == w,
        _ => false,
    }
}

impl Error {
    /// Builds a rejection from its five parts.
    pub fn new(
        code: &'static str,
        rule: &'static str,
        stage: Stage,
        path: &str,
        detail: String,
    ) -> (e: Error)
        ensures
            e@ == (ErrorView { code: code@, rule: rule@, stage, path: path@, detail: detail@ }),
    {
        Error { code, rule, stage, path: path.to_owned(), detail }
    }

    /// A rejection with code `E_MALFORMED_DOCUMENT`.
    pub fn malformed(rule: &'static str, stage: Stage, path: &str, detail: String) -> (e: Error)
        ensures
            e@ == malformed(rule@, stage, path@, detail@),
    {
        Error::new(crate::code::MALFORMED_DOCUMENT, rule, stage, path, detail)
    }

    /// The one-line rendering of this rejection.
    pub fn message(&self) -> (s: String)
        ensures
            s@ == error_message(self@),
    {
        let mut s = String::from_str(self.code);
        s.append(" (");
        s.append(self.rule);
        s.append(") at ");
        s.append(self.path.as_str());
        s.append(" [stage ");
        s.append(self.stage.as_str());
        s.append("]: ");
        s.append(self.detail.as_str());
        s
    }
}

} // verus!
