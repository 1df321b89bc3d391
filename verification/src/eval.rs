//! The evaluation context and evaluation errors.  The context is owned by
//! the caller: counters are advanced by the host between calls, never by a
//! filter, and capture groups come from an upstream match against the
//! input.

use vstd::prelude::*;
use vstd::string::StringExecFns;

verus! {

/// Caller-owned state threaded through evaluation by reference.
pub struct Context {
    /// Working directory used to resolve relative paths.
    pub current_dir: String,
    /// Current value of the per-directory counter.
    pub local_counter: u32,
    /// Current value of the per-run counter.
    pub global_counter: u32,
    /// Capture groups of an upstream regular-expression match against the
    /// input; index 0 is the whole match.  Empty when there was no match.
    pub regex_captures: Vec<String>,
    /// When set, every expression's final value is wrapped in this
    /// character; constants are never wrapped.
    pub expression_quotes: Option<char>,
}

/// Mathematical model of the context.
pub struct SpecContext {
    pub current_dir: Seq<char>,
    pub local_counter: u32,
    pub global_counter: u32,
    pub regex_captures: Seq<Seq<char>>,
    pub expression_quotes: Option<char>,
}

impl View for Context {
    type V = SpecContext;

    open spec fn view(&self) -> SpecContext {
        SpecContext {
            current_dir: self.current_dir@,
            local_counter: self.local_counter,
            global_counter: self.global_counter,
            regex_captures: self.regex_captures.deep_view(),
            expression_quotes: self.expression_quotes,
        }
    }
}

/// What went wrong while evaluating a filter.
#[derive(Debug, PartialEq)]
pub enum ErrorKind {
    /// The filesystem could not canonicalize the value as a path; carries
    /// the reported message.
    CanonicalizationFailed(String),
}

/// Mathematical model of an evaluation error kind.
pub enum SpecErrorKind {
    CanonicalizationFailed(Seq<char>),
}

impl View for ErrorKind {
    type V = SpecErrorKind;

    open spec fn view(&self) -> SpecErrorKind {
        match self {
            ErrorKind::CanonicalizationFailed(m) => SpecErrorKind::CanonicalizationFailed(m@),
        }
    }
}

/// An evaluation error: what failed, the original input value (not the
/// partially transformed one), the offending filter, and its byte range in
/// the pattern source.
#[derive(Debug, PartialEq)]
pub struct Error<'a> {
    pub kind: ErrorKind,
    pub value: String,
    pub cause: &'a crate::filter::Filter,
    pub start: usize,
    pub end: usize,
}

/// Mathematical model of an evaluation error.
pub struct SpecEvalError {
    pub kind: SpecErrorKind,
    pub value: Seq<char>,
    pub cause: crate::filter::SpecFilter,
    pub start: int,
    pub end: int,
}

impl<'a> View for Error<'a> {
    type V = SpecEvalError;

    open spec fn view(&self) -> SpecEvalError {
        SpecEvalError {
            kind: self.kind@,
            value: self.value@,
            cause: (*self.cause)@,
            start: self.start as int,
            end: self.end as int,
        }
    }
}

/// The capture-group text a capture filter renders: group `i` of the
/// upstream match, or empty when there is no such group.
pub open spec fn spec_capture(captures: Seq<Seq<char>>, i: int) -> Seq<char> {
    if 0 <= i < captures.len() {
        captures[i]
    } else {
        Seq::empty()
    }
}

/// Group `i` of `captures`, or an empty string.
pub fn capture(captures: &Vec<String>, i: usize) -> (r: String)
    ensures
        r@ == spec_capture(captures.deep_view(), i as int),
{
    if i < captures.len() {
        let mut out = String::new();
        out.append(captures[i].as_str());
        proof {
            assert(out@ =~= captures.deep_view()[i as int]);
        }
        out
    } else {
        String::new()
    }
}

} // verus!
