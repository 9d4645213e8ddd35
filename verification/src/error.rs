//! The failure vocabulary shared by every fallible operation.

use vstd::prelude::*;

verus! {

/// What can go wrong while building or running a fuzzy system.
///
/// Errors are returned, never thrown; the first one ends the operation that
/// met it, and nothing partial is handed back.
#[derive(Debug, Clone, Copy, PartialEq, Eq, Hash, Structural)]
#[non_exhaustive]
pub enum FuzzyError {
    /// A sampling interval whose bounds are not in strictly rising order.
    BadArity,
    /// A zero-length name, or an empty set of rules, variables or consequents.
    EmptyInput,
    /// A value of the wrong kind.
    TypeMismatch,
    /// A crisp input outside a variable's inclusive domain, or a sample count
    /// outside the sampler's limits.
    OutOfBounds,
    /// A shape whose parameters break its invariant.
    InvalidShape,
    /// A variable whose lower bound is not below its upper bound.
    InvalidDomain,
    /// A term name that the variable already has.
    DuplicateTerm,
    /// A term name that the variable does not have.
    UnknownTerm,
    /// A variable name that is not registered.
    UnknownVariable,
    /// A variable that the crisp inputs do not cover.
    MissingInput,
}

impl FuzzyError {
    /// The message that names this error.
    pub open spec fn message(&self) -> Seq<char> {
        match self {
            FuzzyError::BadArity => "Bad arity"@,
            FuzzyError::EmptyInput => "Empty input"@,
            FuzzyError::TypeMismatch => "Invalid type input"@,
            FuzzyError::OutOfBounds => "Out of bounds"@,
            FuzzyError::InvalidShape => "Invalid shape"@,
            FuzzyError::InvalidDomain => "Invalid domain"@,
            FuzzyError::DuplicateTerm => "Duplicate term"@,
            FuzzyError::UnknownTerm => "Unknown term"@,
            FuzzyError::UnknownVariable => "Unknown variable"@,
            FuzzyError::MissingInput => "Missing input"@,
        }
    }

    /// Renders the error as its message.
    pub fn to_string(&self) -> (s: String)
        ensures
            s@ == self.message(),
    {
        match self {
            FuzzyError::BadArity => "Bad arity".to_owned(),
            FuzzyError::EmptyInput => "Empty input".to_owned(),
            FuzzyError::TypeMismatch => "Invalid type input".to_owned(),
            FuzzyError::OutOfBounds => "Out of bounds".to_owned(),
            FuzzyError::InvalidShape => "Invalid shape".to_owned(),
            FuzzyError::InvalidDomain => "Invalid domain".to_owned(),
            FuzzyError::DuplicateTerm => "Duplicate term".to_owned(),
            FuzzyError::UnknownTerm => "Unknown term".to_owned(),
            FuzzyError::UnknownVariable => "Unknown variable".to_owned(),
            FuzzyError::MissingInput => "Missing input".to_owned(),
        }
    }
}

} // verus!
