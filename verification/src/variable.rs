//! The earlier single-variable form of the expression syntax, kept as a
//! deprecated precursor of the filter chains: one variable per expression,
//! named by a single character or a capture-group number, evaluated
//! against a path from the context rather than a flowing value.

use vstd::prelude::*;

use crate::chars::{chars_of, decimal_string, spec_decimal, string_of};
use crate::eval::spec_capture;
use crate::generate::{new_uuid, spec_is_uuid_v4};
use crate::number::{parse_number, spec_is_digit, spec_num_end, spec_number};
use crate::parse::{Error, ErrorKind, ParseResult, SpecError, SpecErrorKind};
use crate::path;
use crate::reader::{seq_width, Char, Reader};

verus! {

/// One variable of the earlier syntax.
#[derive(Debug, PartialEq, Eq, Structural, Clone, Copy)]
pub enum Variable {
    Filename,
    Basename,
    Extension,
    ExtensionWithDot,
    FullDirname,
    ParentDirname,
    FullPath,
    LocalCounter,
    GlobalCounter,
    RegexCapture(usize),
    Uuid,
}

/// The context a variable is rendered from: the path being processed,
/// the caller-owned counters, and the upstream capture groups.
pub struct EvalContext {
    pub path: String,
    pub local_counter: u32,
    pub global_counter: u32,
    pub regex_captures: Vec<String>,
}

/// What `Variable::parse` yields for the segment characters `s`, starting
/// at character index `i`, which sits at byte offset `pos`.
pub open spec fn spec_parse_variable(s: Seq<Char>, i: int, pos: int) -> Result<
    Variable,
    SpecError,
> {
    if i < s.len() && spec_is_digit(s[i].spec_value()) {
        let n = spec_number(s, i);
        if n > 0 {
            Ok(Variable::RegexCapture(n as usize))
        } else {
            Err(
                SpecError {
                    kind: SpecErrorKind::RegexCaptureZero,
                    start: pos,
                    end: pos + seq_width(s.subrange(i, spec_num_end(s, i))),
                },
            )
        }
    } else if i >= s.len() {
        Err(SpecError { kind: SpecErrorKind::ExpectedVariable, start: pos, end: pos })
    } else {
        let c = s[i].spec_value();
        if c == 'f' {
            Ok(Variable::Filename)
        } else if c == 'b' {
            Ok(Variable::Basename)
        } else if c == 'e' {
            Ok(Variable::Extension)
        } else if c == 'E' {
            Ok(Variable::ExtensionWithDot)
        } else if c == 'd' {
            Ok(Variable::FullDirname)
        } else if c == 'D' {
            Ok(Variable::ParentDirname)
        } else if c == 'p' {
            Ok(Variable::FullPath)
        } else if c == 'c' {
            Ok(Variable::LocalCounter)
        } else if c == 'C' {
            Ok(Variable::GlobalCounter)
        } else if c == 'u' {
            Ok(Variable::Uuid)
        } else {
            Err(
                SpecError {
                    kind: SpecErrorKind::UnknownVariable(s[i]),
                    start: pos,
                    end: pos + s[i].spec_width(),
                },
            )
        }
    }
}

impl Variable {
    /// Parses one variable from the rest of a segment: a capture-group
    /// number, or a one-character code.  Characters left over after a
    /// complete variable are not consumed.
    pub fn parse(reader: &mut Reader) -> (r: ParseResult<Variable>)
        ensures
            crate::parse::res_view(r) == spec_parse_variable(
                old(reader).spec_chars(),
                old(reader).spec_index(),
                old(reader).spec_position(),
            ),
    {
        let position = reader.position();
        let leading_digit = match reader.peek_value() {
            Some(c) => '0' <= c && c <= '9',
            None => false,
        };
        if leading_digit {
            let number = match parse_number(reader) {
                Some(n) => n,
                None => {
                    proof {
                        assert(false);
                    }
                    0
                },
            };
            if number > 0 {
                return Ok(Variable::RegexCapture(number));
            }
            return Err(
                Error {
                    kind: ErrorKind::RegexCaptureZero,
                    start: position,
                    end: reader.position(),
                },
            );
        }
        let code = match reader.read() {
            Some(c) => c,
            None => {
                return Err(
                    Error { kind: ErrorKind::ExpectedVariable, start: position, end: position },
                );
            },
        };
        match code.value() {
            'f' => Ok(Variable::Filename),
            'b' => Ok(Variable::Basename),
            'e' => Ok(Variable::Extension),
            'E' => Ok(Variable::ExtensionWithDot),
            'd' => Ok(Variable::FullDirname),
            'D' => Ok(Variable::ParentDirname),
            'p' => Ok(Variable::FullPath),
            'c' => Ok(Variable::LocalCounter),
            'C' => Ok(Variable::GlobalCounter),
            'u' => Ok(Variable::Uuid),
            _ => Err(
                Error {
                    kind: ErrorKind::UnknownVariable(code),
                    start: position,
                    end: reader.position(),
                },
            ),
        }
    }

    /// Renders this variable from the context.  Every variable succeeds;
    /// capture groups outside the match render as empty.
    pub fn eval(&self, context: &EvalContext) -> (r: Result<String, crate::eval::ErrorKind>)
        ensures
            r is Ok,
            ({
                let o = r->Ok_0@;
                let p = context.path@;
                match self {
                    Variable::Filename => o == path::spec_file_name(p),
                    Variable::Basename => o == path::spec_base_name(p),
                    Variable::Extension => o == path::spec_extension(p),
                    Variable::ExtensionWithDot => o == path::spec_extension_with_dot(p),
                    Variable::FullDirname => o == path::spec_parent(p),
                    Variable::ParentDirname => o == path::spec_parent_name(p),
                    Variable::FullPath => o == p,
                    Variable::LocalCounter => o == spec_decimal(context.local_counter as nat),
                    Variable::GlobalCounter => o == spec_decimal(context.global_counter as nat),
                    Variable::RegexCapture(i) => o == spec_capture(
                        context.regex_captures.deep_view(),
                        *i as int,
                    ),
                    Variable::Uuid => spec_is_uuid_v4(o),
                }
            }),
    {
        match self {
            Variable::Filename => {
                let p = chars_of(context.path.as_str());
                Ok(string_of(&path::file_name(&p)))
            },
            Variable::Basename => {
                let p = chars_of(context.path.as_str());
                Ok(string_of(&path::base_name(&p)))
            },
            Variable::Extension => {
                let p = chars_of(context.path.as_str());
                Ok(string_of(&path::extension(&p)))
            },
            Variable::ExtensionWithDot => {
                let p = chars_of(context.path.as_str());
                Ok(string_of(&path::extension_with_dot(&p)))
            },
            Variable::FullDirname => {
                let p = chars_of(context.path.as_str());
                Ok(string_of(&path::parent(&p)))
            },
            Variable::ParentDirname => {
                let p = chars_of(context.path.as_str());
                Ok(string_of(&path::parent_name(&p)))
            },
            Variable::FullPath => {
                let p = chars_of(context.path.as_str());
                Ok(string_of(&p))
            },
            Variable::LocalCounter => Ok(decimal_string(context.local_counter as u64)),
            Variable::GlobalCounter => Ok(decimal_string(context.global_counter as u64)),
            Variable::RegexCapture(index) => Ok(
                crate::eval::capture(&context.regex_captures, *index),
            ),
            Variable::Uuid => Ok(new_uuid()),
        }
    }
}

} // verus!

pub mod parse;
