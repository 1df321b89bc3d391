//! The oldest form of the variable syntax: a whole segment names exactly
//! one variable, and anything after it is an error.  Kept as the
//! deprecated precursor of the richer forms.

use vstd::prelude::*;

use crate::number::{parse_number, spec_is_digit, spec_num_end, spec_number};
use crate::reader::{seq_width, Char, Reader};

verus! {

/// What went wrong while reading a whole-segment variable.
#[derive(Debug, PartialEq, Eq, Structural, Clone, Copy)]
pub enum ErrorType {
    ExpectedVariable,
    UnknownVariable,
    UnexpectedCharacters,
}

/// An error of the whole-segment variable form, with the byte range of
/// the offending text.
#[derive(Debug, PartialEq, Eq, Structural, Clone, Copy)]
pub struct ParseError {
    pub typ: ErrorType,
    pub start: usize,
    pub end: usize,
}

/// One variable of the oldest syntax; capture groups keep their bare
/// number, zero included.
#[derive(Debug, PartialEq, Eq, Structural, Clone, Copy)]
pub enum Variable {
    Filename,
    Basename,
    Extension,
    ExtensionWithDot,
    LocalCounter,
    GlobalCounter,
    CaptureGroup(usize),
    Uuid,
}

/// Model of a whole-segment parse: the variable named by the first
/// characters of `s`, refusing an empty segment, an unknown code, and any
/// characters after a complete variable.
pub open spec fn spec_parse_whole(s: Seq<Char>) -> Result<Variable, ParseError> {
    let total = seq_width(s) as int;
    if s.len() == 0 {
        Err(ParseError { typ: ErrorType::ExpectedVariable, start: 0, end: 0 })
    } else if spec_is_digit(s[0].spec_value()) {
        let j = spec_num_end(s, 0);
        if j == s.len() {
            Ok(Variable::CaptureGroup(spec_number(s, 0) as usize))
        } else {
            Err(
                ParseError {
                    typ: ErrorType::UnexpectedCharacters,
                    start: seq_width(s.subrange(0, j)) as int as usize,
                    end: total as usize,
                },
            )
        }
    } else {
        let c = s[0].spec_value();
        let known = c == 'f' || c == 'b' || c == 'e' || c == 'E' || c == 'c' || c == 'C' || c
            == 'u';
        if !known {
            Err(ParseError { typ: ErrorType::UnknownVariable, start: 0, end: total as usize })
        } else if s.len() != 1 {
            Err(
                ParseError {
                    typ: ErrorType::UnexpectedCharacters,
                    start: s[0].spec_width() as usize,
                    end: total as usize,
                },
            )
        } else if c == 'f' {
            Ok(Variable::Filename)
        } else if c == 'b' {
            Ok(Variable::Basename)
        } else if c == 'e' {
            Ok(Variable::Extension)
        } else if c == 'E' {
            Ok(Variable::ExtensionWithDot)
        } else if c == 'c' {
            Ok(Variable::LocalCounter)
        } else if c == 'C' {
            Ok(Variable::GlobalCounter)
        } else {
            Ok(Variable::Uuid)
        }
    }
}

impl Variable {
    /// Parses a whole segment as one variable.
    pub fn parse(string: &str) -> (r: Result<Variable, ParseError>)
        ensures
            r == spec_parse_whole(crate::reader::raw_seq(string@)),
    {
        let mut reader = Reader::new(string);
        let ghost s = crate::reader::raw_seq(string@);
        proof {
            assert(s.skip(0) =~= s);
        }
        let total = reader.end();
        let first = reader.peek_value();
        let variable = match first {
            None => {
                return Err(ParseError { typ: ErrorType::ExpectedVariable, start: 0, end: 0 });
            },
            Some(c) => {
                if '0' <= c && c <= '9' {
                    let number = match parse_number(&mut reader) {
                        Some(n) => n,
                        None => {
                            proof {
                                assert(false);
                            }
                            0
                        },
                    };
                    Variable::CaptureGroup(number)
                } else {
                    let code = match reader.read() {
                        Some(ch) => ch.value(),
                        None => {
                            proof {
                                assert(false);
                            }
                            ' '
                        },
                    };
                    match code {
                        'f' => Variable::Filename,
                        'b' => Variable::Basename,
                        'e' => Variable::Extension,
                        'E' => Variable::ExtensionWithDot,
                        'c' => Variable::LocalCounter,
                        'C' => Variable::GlobalCounter,
                        'u' => Variable::Uuid,
                        _ => {
                            return Err(
                                ParseError {
                                    typ: ErrorType::UnknownVariable,
                                    start: 0,
                                    end: total,
                                },
                            );
                        },
                    }
                }
            },
        };
        let done = match reader.peek_value() {
            None => true,
            Some(_) => false,
        };
        if done {
            Ok(variable)
        } else {
            let rest_start = reader.position();
            Err(
                ParseError { typ: ErrorType::UnexpectedCharacters, start: rest_start, end: total },
            )
        }
    }
}

} // verus!
