//! The one fatal error type every parsing operation returns, and the
//! non-fatal warning attached to a successful parse.

use vstd::prelude::*;

verus! {

/// The fatal conditions: malformed nesting or a token in an illegal
/// position; a well-formed bracketed value failing its domain check; the
/// same identifier twice in one node.
#[derive(Clone, Copy, Debug, PartialEq, Eq, Structural)]
pub enum SgfErrorKind {
    StructuralError,
    ValueValidationError,
    DuplicatePropertyError,
}

/// Mathematical model of an [`SgfParseError`].
pub struct ErrV {
    pub kind: SgfErrorKind,
    pub identifier: Seq<char>,
    pub detail: Seq<char>,
    pub offset: int,
}

/// A fatal parse error: its kind, the property identifier involved (empty
/// when none is), the offending text or a fixed description, and a 1-based
/// character offset into the parsed text (0 when no position applies).
#[derive(Debug, PartialEq, Eq)]
pub struct SgfParseError {
    pub kind: SgfErrorKind,
    pub identifier: String,
    pub detail: String,
    pub offset: usize,
}

impl View for SgfParseError {
    type V = ErrV;

    open spec fn view(&self) -> ErrV {
        ErrV {
            kind: self.kind,
            identifier: self.identifier@,
            detail: self.detail@,
            offset: self.offset as int,
        }
    }
}

impl SgfParseError {
    pub fn new(kind: SgfErrorKind, identifier: String, detail: String, offset: usize) -> (e: Self)
        ensures
            e@ == (ErrV {
                kind,
                identifier: identifier@,
                detail: detail@,
                offset: offset as int,
            }),
    {
        SgfParseError { kind, identifier, detail, offset }
    }
}

/// Mathematical model of an [`SgfWarning`].
pub struct WarnV {
    pub identifier: Seq<char>,
    pub offset: int,
}

/// A recoverable diagnostic: a property identifier the catalog does not
/// know, with the 1-based character offset of the identifier. The value is
/// kept as opaque text and parsing continues.
#[derive(Debug, PartialEq, Eq)]
pub struct SgfWarning {
    pub identifier: String,
    pub offset: usize,
}

impl View for SgfWarning {
    type V = WarnV;

    open spec fn view(&self) -> WarnV {
        WarnV { identifier: self.identifier@, offset: self.offset as int }
    }
}

impl SgfWarning {
    pub fn new(identifier: String, offset: usize) -> (w: Self)
        ensures
            w@ == (WarnV { identifier: identifier@, offset: offset as int }),
    {
        SgfWarning { identifier, offset }
    }
}

/// View of a warning list.
pub open spec fn warns_view(s: Seq<SgfWarning>) -> Seq<WarnV> {
    s.map_values(|w: SgfWarning| w@)
}

} // verus!
