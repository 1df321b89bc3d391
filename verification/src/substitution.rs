//! The substitution micro-grammar: `/target/replacement`, or `/target` with
//! an empty replacement.  The slash is a fixed delimiter; the target runs to
//! the next slash (or to the end of the segment) and the replacement is
//! everything after that slash.

use vstd::prelude::*;

use crate::parse::{Error, ErrorKind, ParseResult, SpecError, SpecErrorKind};
use crate::reader::{
    find_value, join_values, seq_values, seq_width, slice_chars, spec_find, width_of, Char,
    Reader,
};
use crate::regexp::{spec_regex_error, RegexHolder};

verus! {

/// A target and what to put in its place.
#[derive(Debug, PartialEq)]
pub struct Substitution<T> {
    pub target: T,
    pub replacement: String,
}

/// Mathematical model of a substitution; a regex target is modelled by its
/// pattern.
pub struct SpecSubstitution {
    pub target: Seq<char>,
    pub replacement: Seq<char>,
}

impl View for Substitution<String> {
    type V = SpecSubstitution;

    open spec fn view(&self) -> SpecSubstitution {
        SpecSubstitution { target: self.target@, replacement: self.replacement@ }
    }
}

impl View for Substitution<RegexHolder> {
    type V = SpecSubstitution;

    open spec fn view(&self) -> SpecSubstitution {
        SpecSubstitution { target: self.target.spec_pattern(), replacement: self.replacement@ }
    }
}

/// The target and replacement the micro-grammar carves out of the segment
/// characters after the leading slash.
pub open spec fn spec_split_sub(t: Seq<Char>) -> SpecSubstitution {
    let k = spec_find(t, 0, '/');
    SpecSubstitution {
        target: seq_values(t.take(k)),
        replacement: if k < t.len() {
            seq_values(t.skip(k + 1))
        } else {
            Seq::empty()
        },
    }
}

/// What `Substitution::parse_string` yields for the segment characters `s`,
/// starting at character index `i`, which sits at byte offset `pos`.
pub open spec fn spec_parse_string_sub(s: Seq<Char>, i: int, pos: int) -> Result<
    SpecSubstitution,
    SpecError,
> {
    if i >= s.len() {
        Err(SpecError { kind: SpecErrorKind::ExpectedSubstitution, start: pos, end: pos })
    } else if s[i].spec_value() != '/' {
        Err(
            SpecError {
                kind: SpecErrorKind::ExpectedSubstitution,
                start: pos,
                end: pos + seq_width(s.skip(i)),
            },
        )
    } else {
        Ok(spec_split_sub(s.skip(i + 1)))
    }
}

/// What `Substitution::parse_regex` yields: as the string form, except that
/// the target must compile as a regular expression; when it does not, the
/// error carries the engine's message and spans exactly the target.
pub open spec fn spec_parse_regex_sub(s: Seq<Char>, i: int, pos: int) -> Result<
    SpecSubstitution,
    SpecError,
> {
    if i >= s.len() {
        Err(SpecError { kind: SpecErrorKind::ExpectedSubstitution, start: pos, end: pos })
    } else if s[i].spec_value() != '/' {
        Err(
            SpecError {
                kind: SpecErrorKind::ExpectedSubstitution,
                start: pos,
                end: pos + seq_width(s.skip(i)),
            },
        )
    } else {
        let t = s.skip(i + 1);
        let sub = spec_split_sub(t);
        match spec_regex_error(sub.target) {
            Option::None => Ok(sub),
            Option::Some(m) => Err(
                SpecError {
                    kind: SpecErrorKind::SubstituteRegexInvalid(m),
                    start: pos + s[i].spec_width(),
                    end: pos + s[i].spec_width() + seq_width(t.take(spec_find(t, 0, '/'))),
                },
            ),
        }
    }
}

/// Reads the separator and splits the rest of the segment at the next
/// slash; used by both substitution forms.
fn read_split(reader: &mut Reader) -> (r: Result<(Vec<Char>, Vec<Char>, usize), Error>)
    ensures
        ({
            let s = old(reader).spec_chars();
            let i = old(reader).spec_index();
            let pos = old(reader).spec_position();
            match r {
                Ok((target, replacement, sep_end)) => {
                    let t = s.skip(i + 1);
                    let k = spec_find(t, 0, '/');
                    &&& i < s.len() && s[i].spec_value() == '/'
                    &&& target@ == t.take(k)
                    &&& replacement@ == if k < t.len() {
                        t.skip(k + 1)
                    } else {
                        Seq::<Char>::empty()
                    }
                    &&& sep_end == pos + s[i].spec_width()
                    &&& sep_end + seq_width(t.take(k)) <= usize::MAX
                },
                Err(e) => {
                    if i >= s.len() {
                        e@ == (SpecError {
                            kind: SpecErrorKind::ExpectedSubstitution,
                            start: pos,
                            end: pos,
                        })
                    } else {
                        s[i].spec_value() != '/' && e@ == (SpecError {
                            kind: SpecErrorKind::ExpectedSubstitution,
                            start: pos,
                            end: pos + seq_width(s.skip(i)),
                        })
                    }
                },
            }
        }),
{
    let ghost s = reader.spec_chars();
    let ghost i0 = reader.spec_index();
    let start = reader.position();
    let sep = match reader.peek_value() {
        Some(c) => c,
        None => {
            return Err(Error { kind: ErrorKind::ExpectedSubstitution, start, end: start });
        },
    };
    if sep != '/' {
        let end = reader.end();
        return Err(Error { kind: ErrorKind::ExpectedSubstitution, start, end });
    }
    let _ = reader.read();
    let sep_end = reader.position();
    let rest = reader.read_to_end();
    let ghost t = rest@;
    let k = find_value(&rest, 0, '/');
    let _segment_end = reader.position();
    proof {
        crate::reader::lemma_spec_find(t, 0, '/');
        crate::reader::lemma_seq_width_split(t, k as int);
    }
    let target = slice_chars(&rest, 0, k);
    let replacement = if k < rest.len() {
        slice_chars(&rest, k + 1, rest.len())
    } else {
        Vec::new()
    };
    proof {
        assert(t.take(k as int) =~= t.subrange(0, k as int));
        if (k as int) < t.len() {
            assert(t.skip(k as int + 1) =~= t.subrange(k as int + 1, t.len() as int));
        }
    }
    Ok((target, replacement, sep_end))
}

impl Substitution<String> {
    /// Parses a literal substitution argument from the rest of a segment.
    pub fn parse_string(reader: &mut Reader) -> (r: ParseResult<Substitution<String>>)
        ensures
            crate::parse::res_view_deep(r) == spec_parse_string_sub(
                old(reader).spec_chars(),
                old(reader).spec_index(),
                old(reader).spec_position(),
            ),
    {
        proof {
            assert(seq_values(Seq::<Char>::empty()) =~= Seq::<char>::empty());
        }
        match read_split(reader) {
            Ok((target, replacement, _)) => Ok(
                Substitution {
                    target: join_values(&target),
                    replacement: join_values(&replacement),
                },
            ),
            Err(e) => Err(e),
        }
    }
}

impl Substitution<RegexHolder> {
    /// Parses a regular-expression substitution argument from the rest of a
    /// segment, compiling the target.
    pub fn parse_regex(reader: &mut Reader) -> (r: ParseResult<Substitution<RegexHolder>>)
        ensures
            crate::parse::res_view_deep(r) == spec_parse_regex_sub(
                old(reader).spec_chars(),
                old(reader).spec_index(),
                old(reader).spec_position(),
            ),
    {
        proof {
            assert(seq_values(Seq::<Char>::empty()) =~= Seq::<char>::empty());
        }
        match read_split(reader) {
            Ok((target, replacement, sep_end)) => {
                let target_str = join_values(&target);
                match RegexHolder::new(target_str.as_str()) {
                    Ok(holder) => Ok(
                        Substitution { target: holder, replacement: join_values(&replacement) },
                    ),
                    Err(message) => {
                        let width = width_of(&target);
                        Err(
                            Error {
                                kind: ErrorKind::SubstituteRegexInvalid(message),
                                start: sep_end,
                                end: sep_end + width,
                            },
                        )
                    },
                }
            },
            Err(e) => Err(e),
        }
    }
}

} // verus!
