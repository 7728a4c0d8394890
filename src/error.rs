use vstd::prelude::*;

verus! {

/// A literal token that the grammar required at some position.
#[derive(Debug, Clone, Copy, PartialEq, Eq, Structural)]
pub enum Token {
    /// `}` closing a label set.
    CloseBrace,
    /// `"` opening or closing a label value.
    Quote,
    /// `#` starting a header line.
    Hash,
    /// `TYPE` after the `#` of a header line.
    Type,
}

/// What went wrong while parsing.
#[derive(Debug, Clone, Copy, PartialEq, Eq, Structural)]
pub enum ErrorKind {
    /// No identifier where one was expected.
    MalformedIdentifier,
    /// Neither a sentinel nor a decimal literal where a value was expected.
    MalformedNumericValue,
    /// A required literal token was missing.
    ExpectedToken(Token),
    /// The word after the metric name of a header is not a metric kind.
    UnrecognizedMetricKind,
    /// Any other mismatch with the grammar.
    GenericSyntaxError,
}

/// A parse failure: its kind and the input that remained where it happened.
#[derive(Debug, Clone, PartialEq, Eq)]
pub struct ParseError {
    pub kind: ErrorKind,
    pub input: String,
}

} // verus!
