use vstd::prelude::*;

verus! {

/// Classifies why a parse attempt failed.
///
/// Every failure of a parser in this crate is local and recoverable: a caller
/// may retry the same input with another dialect's parser, or map the carried
/// offset back to a line/column diagnostic.
#[derive(Clone, Copy, Debug, PartialEq, Eq, Structural)]
pub enum ParseErrorKind {
    /// The dialect's opening marker is not literally at the expected place.
    MissingOpeningMarker,
    /// A closing marker (quote, `>`, closing tag, backtick pair) was never found.
    UnterminatedConstruct,
    /// The mandatory field is absent, or was given an empty value.
    MissingMandatoryField,
    /// A recognized field occurred a second time while its slot already held
    /// a non-empty value.
    DuplicateField,
    /// A malformed field token, e.g. an identifier starting with a digit.
    InvalidFieldName,
    /// A backslash followed by a character outside the recognized escape set.
    InvalidEscapeSequence,
    /// A reference label holds an unescaped colon outside backtick quoting,
    /// or its terminator is missing.
    MalformedReferenceLabel,
    /// A bracketed destination was not the last thing before the closing
    /// delimiter.
    TrailingContentAfterDestination,
    /// Reserved for dialects whose multi-line blocks demand a continuation:
    /// the block joiner of this crate instead ends the block before the first
    /// line that is not indented far enough.
    InsufficientIndentation,
}

/// A typed parse failure: what went wrong and where.
///
/// `pos` is a byte offset into the input handed to the failing parser; for a
/// failure inside the joined text of a multi-line block it is the offset of
/// the block's start.
#[derive(Clone, Copy, Debug, PartialEq, Eq, Structural)]
pub struct ParseError {
    pub kind: ParseErrorKind,
    pub pos: usize,
}

} // verus!
