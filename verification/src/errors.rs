//! The ways a parse can fail.
use vstd::prelude::*;

verus! {

/// An error raised while parsing a dice query.
#[derive(Clone, Copy, PartialEq, Eq, Structural, Debug)]
pub enum ParseError {
    /// A fixed token pattern failed to compile. The patterns this library
    /// scans with are built in and always valid, so no function here ever
    /// returns this; it stays part of the error surface for callers that
    /// treat pattern construction as fallible.
    PatternCompilationFailed,
    /// A dice token had no parsable number on either side of the `d`
    /// separator, so no dice term could be built from it. This aborts the
    /// whole parse: no partial result is kept.
    InvalidDiceFormat,
    /// An operator token fell outside `+`, `-`, `*`, `/`. The operator scan
    /// only ever yields those four characters, so no function here ever
    /// returns this; it stays part of the error surface as the fatal form an
    /// internal invariant violation would take.
    UnrecognizedOperator,
}

impl ParseError {
    /// A diagnostic message naming the failure.
    pub fn message(&self) -> (r: &'static str)
        ensures
            r@ == self.spec_message(),
    {
        match self {
            ParseError::PatternCompilationFailed => "token pattern failed to compile",
            ParseError::InvalidDiceFormat => "invalid dice format: expected digits on at least one side of 'd'",
            ParseError::UnrecognizedOperator => "unrecognized operator: expected one of + - * /",
        }
    }

    /// The message each error carries.
    pub open spec fn spec_message(&self) -> Seq<char> {
        match self {
            ParseError::PatternCompilationFailed => "token pattern failed to compile"@,
            ParseError::InvalidDiceFormat => "invalid dice format: expected digits on at least one side of 'd'"@,
            ParseError::UnrecognizedOperator => "unrecognized operator: expected one of + - * /"@,
        }
    }
}

} // verus!
