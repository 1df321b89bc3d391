//! The range micro-grammar for substring filters: `N` (just the N-th
//! character), `N-M`, `N-` and `-M`, with positive 1-based indices counted
//! in Unicode scalar values.  Internally a range stores a 0-based inclusive
//! start and a 0-based exclusive end.

use vstd::prelude::*;

use crate::chars::{decimal_string, spec_decimal};
use vstd::string::StringExecFns;
use crate::number::{parse_number, spec_is_digit, spec_num_end, spec_number};
use crate::parse::{Error, ErrorKind, ParseResult, SpecError, SpecErrorKind};
use crate::reader::{seq_width, Char, Reader};

verus! {

/// An index range over the characters of the evaluated value.
/// `From(a)` is everything from 0-based index `a` on; `To(b)` is everything
/// before 0-based index `b`; `FromTo(a, b)` is the half-open slice `[a, b)`.
#[derive(Debug, PartialEq, Eq, Structural, Clone, Copy)]
pub enum Range {
    From(usize),
    To(usize),
    FromTo(usize, usize),
}

/// What `Range::parse` yields for the segment characters `s`, starting at
/// character index `i`, which sits at byte offset `pos` of the source.
pub open spec fn spec_parse_range(s: Seq<Char>, i: int, pos: int) -> Result<Range, SpecError> {
    if i >= s.len() {
        Err(SpecError { kind: SpecErrorKind::ExpectedRange, start: pos, end: pos })
    } else if s[i].spec_value() == '-' {
        if i + 1 < s.len() && spec_is_digit(s[i + 1].spec_value()) {
            let m = spec_number(s, i + 1);
            if m == 0 {
                Err(
                    SpecError {
                        kind: SpecErrorKind::RangeInvalid,
                        start: pos,
                        end: pos + s[i].spec_width() + seq_width(
                            s.subrange(i + 1, spec_num_end(s, i + 1)),
                        ),
                    },
                )
            } else {
                Ok(Range::To(m as usize))
            }
        } else {
            Err(
                SpecError {
                    kind: SpecErrorKind::RangeInvalid,
                    start: pos,
                    end: pos + seq_width(s.skip(i)),
                },
            )
        }
    } else if spec_is_digit(s[i].spec_value()) {
        let n = spec_number(s, i);
        let j = spec_num_end(s, i);
        let posj = pos + seq_width(s.subrange(i, j));
        if n == 0 {
            Err(SpecError { kind: SpecErrorKind::RangeInvalid, start: pos, end: posj })
        } else if j < s.len() && s[j].spec_value() == '-' {
            if j + 1 < s.len() && spec_is_digit(s[j + 1].spec_value()) {
                let m = spec_number(s, j + 1);
                let posk = posj + s[j].spec_width() + seq_width(
                    s.subrange(j + 1, spec_num_end(s, j + 1)),
                );
                if m == 0 || m < n {
                    Err(SpecError { kind: SpecErrorKind::RangeInvalid, start: pos, end: posk })
                } else {
                    Ok(Range::FromTo((n - 1) as usize, m as usize))
                }
            } else {
                Ok(Range::From((n - 1) as usize))
            }
        } else {
            Ok(Range::FromTo((n - 1) as usize, n as usize))
        }
    } else {
        Err(
            SpecError {
                kind: SpecErrorKind::RangeInvalid,
                start: pos,
                end: pos + s[i].spec_width(),
            },
        )
    }
}

impl Range {
    /// Parses a range argument from the rest of a pipe segment.
    pub fn parse(reader: &mut Reader) -> (r: ParseResult<Range>)
        ensures
            crate::parse::res_view(r) == spec_parse_range(
                old(reader).spec_chars(),
                old(reader).spec_index(),
                old(reader).spec_position(),
            ),
    {
        let ghost s = reader.spec_chars();
        let ghost i0 = reader.spec_index();
        let ghost p0 = reader.spec_position();
        let start = reader.position();
        let first = match reader.peek_value() {
            Some(c) => c,
            None => {
                return Err(Error { kind: ErrorKind::ExpectedRange, start, end: start });
            },
        };
        if first == '-' {
            let _ = reader.read();
            proof {
                crate::reader::lemma_seq_width_skip_succ(s, i0);
            }
            match parse_number(reader) {
                Some(m) => {
                    if m == 0 {
                        Err(Error { kind: ErrorKind::RangeInvalid, start, end: reader.position() })
                    } else {
                        Ok(Range::To(m))
                    }
                },
                None => {
                    let end = reader.end();
                    Err(Error { kind: ErrorKind::RangeInvalid, start, end })
                },
            }
        } else if '0' <= first && first <= '9' {
            let n = match parse_number(reader) {
                Some(n) => n,
                None => {
                    proof {
                        assert(false);
                    }
                    0
                },
            };
            if n == 0 {
                return Err(Error { kind: ErrorKind::RangeInvalid, start, end: reader.position() });
            }
            let dash = match reader.peek_value() {
                Some(c) => c == '-',
                None => false,
            };
            if dash {
                let _ = reader.read();
                match parse_number(reader) {
                    Some(m) => {
                        if m == 0 || m < n {
                            Err(
                                Error {
                                    kind: ErrorKind::RangeInvalid,
                                    start,
                                    end: reader.position(),
                                },
                            )
                        } else {
                            Ok(Range::FromTo(n - 1, m))
                        }
                    },
                    None => Ok(Range::From(n - 1)),
                }
            } else {
                Ok(Range::FromTo(n - 1, n))
            }
        } else {
            let _ = reader.read();
            Err(Error { kind: ErrorKind::RangeInvalid, start, end: reader.position() })
        }
    }

    /// One-based index shown to users for a stored 0-based start index.
    pub open spec fn spec_user_index(a: nat) -> nat {
        if a == usize::MAX {
            a
        } else {
            a + 1
        }
    }

    /// The wording used when a filter carrying this range is described.
    pub open spec fn spec_describe(self) -> Seq<char> {
        match self {
            Range::From(a) => "from "@ + spec_decimal(Self::spec_user_index(a as nat)),
            Range::To(b) => "to "@ + spec_decimal(b as nat),
            Range::FromTo(a, b) => "from "@ + spec_decimal(Self::spec_user_index(a as nat))
                + " to "@ + spec_decimal(b as nat),
        }
    }

    /// Renders the range the way users wrote it: with 1-based indices.
    pub fn describe(&self) -> (r: String)
        ensures
            r@ == self.spec_describe(),
    {
        match self {
            Range::From(a) => {
                let low = if *a == usize::MAX {
                    *a
                } else {
                    *a + 1
                };
                let mut out = String::new();
                out.append("from ");
                let num = decimal_string(low as u64);
                out.append(num.as_str());
                out
            },
            Range::To(b) => {
                let mut out = String::new();
                out.append("to ");
                let num = decimal_string(*b as u64);
                out.append(num.as_str());
                out
            },
            Range::FromTo(a, b) => {
                let low = if *a == usize::MAX {
                    *a
                } else {
                    *a + 1
                };
                let mut out = String::new();
                out.append("from ");
                let num = decimal_string(low as u64);
                out.append(num.as_str());
                out.append(" to ");
                let num2 = decimal_string(*b as u64);
                out.append(num2.as_str());
                out
            },
        }
    }
}

} // verus!
