//! Semantic errors surfaced during IR construction. Every construction
//! function fails fast: the first error aborts the whole build.

use vstd::prelude::*;

verus! {

/// A semantic error detected while building the IR from parsed statements.
#[derive(Clone, Copy, Debug, PartialEq, Eq, Structural)]
pub enum SemanticError {
    /// Redeclaration of a name already present in the symbol table.
    DuplicateIdentifier,
    /// Reference to a name that was never declared.
    UndeclaredIdentifier,
    /// Access kind incompatible with the symbol's declared type.
    InvalidAccess,
    /// An index exceeds the declared size of the accessed symbol.
    OutOfBounds,
    /// A constraint targets an undeclared trace segment or reaches past the
    /// configured transition-exemption window.
    InvalidConstraint,
    /// An elementwise operation over vectors of unequal shape.
    DimensionMismatch,
}

impl SemanticError {
    /// A short description of the error, suitable for reporting to the user.
    pub fn message(&self) -> &'static str {
        match self {
            SemanticError::DuplicateIdentifier => "duplicate identifier declaration",
            SemanticError::UndeclaredIdentifier => "reference to undeclared identifier",
            SemanticError::InvalidAccess => "access kind incompatible with symbol type",
            SemanticError::OutOfBounds => "access index out of bounds",
            SemanticError::InvalidConstraint => "invalid constraint",
            SemanticError::DimensionMismatch => "mismatched vector or matrix dimensions",
        }
    }
}

} // verus!
