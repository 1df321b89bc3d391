//! Structured parse errors.  Every error carries a half-open byte range
//! `[start, end)` into the original pattern source, so a host can underline
//! the offending part of the pattern.

use vstd::prelude::*;

use crate::reader::Char;

verus! {

/// What went wrong while parsing a pattern.
#[derive(Debug, PartialEq)]
pub enum ErrorKind {
    /// An expression ends (or the pattern ends) where a filter was expected.
    ExpectedFilter,
    /// A filter code that requires a range argument got none.
    ExpectedRange,
    /// A range argument that does not follow the range micro-grammar
    /// (a zero index, a start past the end, or a stray character).
    RangeInvalid,
    /// A filter code that requires a `/target/replacement` argument got none.
    ExpectedSubstitution,
    /// A filter code that requires a regular expression argument got none.
    ExpectedRegex,
    /// A regular expression argument that failed to compile; carries the
    /// regex engine's message.
    RegexInvalid(String),
    /// The target of a regular expression substitution failed to compile;
    /// carries the regex engine's message.
    SubstituteRegexInvalid(String),
    /// Capture groups are numbered from one; `{0}` is refused.
    RegexCaptureZero,
    /// A filter code that is not part of the catalog.
    UnknownFilter(Char),
    /// A `{` without a matching `}`.
    UnmatchedExprStart,
    /// A `}` without a matching `{`.
    UnmatchedExprEnd,
    /// The earlier single-variable form: the segment ends where a variable
    /// was expected.
    ExpectedVariable,
    /// The earlier single-variable form: a variable code outside its
    /// catalog.
    UnknownVariable(Char),
}

/// A parse error: a kind and the byte range of the offending source text.
#[derive(Debug, PartialEq)]
pub struct Error {
    pub kind: ErrorKind,
    pub start: usize,
    pub end: usize,
}

pub type ParseResult<T> = Result<T, Error>;

/// Mathematical model of an error kind; regex engine messages become
/// character sequences.
pub enum SpecErrorKind {
    ExpectedFilter,
    ExpectedRange,
    RangeInvalid,
    ExpectedSubstitution,
    ExpectedRegex,
    RegexInvalid(Seq<char>),
    SubstituteRegexInvalid(Seq<char>),
    RegexCaptureZero,
    UnknownFilter(Char),
    UnmatchedExprStart,
    UnmatchedExprEnd,
    ExpectedVariable,
    UnknownVariable(Char),
}

/// Mathematical model of a parse error.
pub struct SpecError {
    pub kind: SpecErrorKind,
    pub start: int,
    pub end: int,
}

impl View for ErrorKind {
    type V = SpecErrorKind;

    open spec fn view(&self) -> SpecErrorKind {
        match self {
            ErrorKind::ExpectedFilter => SpecErrorKind::ExpectedFilter,
            ErrorKind::ExpectedRange => SpecErrorKind::ExpectedRange,
            ErrorKind::RangeInvalid => SpecErrorKind::RangeInvalid,
            ErrorKind::ExpectedSubstitution => SpecErrorKind::ExpectedSubstitution,
            ErrorKind::ExpectedRegex => SpecErrorKind::ExpectedRegex,
            ErrorKind::RegexInvalid(m) => SpecErrorKind::RegexInvalid(m@),
            ErrorKind::SubstituteRegexInvalid(m) => SpecErrorKind::SubstituteRegexInvalid(m@),
            ErrorKind::RegexCaptureZero => SpecErrorKind::RegexCaptureZero,
            ErrorKind::UnknownFilter(c) => SpecErrorKind::UnknownFilter(*c),
            ErrorKind::UnmatchedExprStart => SpecErrorKind::UnmatchedExprStart,
            ErrorKind::UnmatchedExprEnd => SpecErrorKind::UnmatchedExprEnd,
            ErrorKind::ExpectedVariable => SpecErrorKind::ExpectedVariable,
            ErrorKind::UnknownVariable(c) => SpecErrorKind::UnknownVariable(*c),
        }
    }
}

impl View for Error {
    type V = SpecError;

    open spec fn view(&self) -> SpecError {
        SpecError { kind: self.kind@, start: self.start as int, end: self.end as int }
    }
}

/// The model of a parse result: values stay as they are, errors are
/// replaced by their models.
pub open spec fn res_view<T>(r: Result<T, Error>) -> Result<T, SpecError> {
    match r {
        Ok(v) => Ok(v),
        Err(e) => Err(e@),
    }
}

/// The model of a parse result whose value has a model of its own.
pub open spec fn res_view_deep<T: View>(r: Result<T, Error>) -> Result<T::V, SpecError> {
    match r {
        Ok(v) => Ok(v@),
        Err(e) => Err(e@),
    }
}

} // verus!
