//! The filter catalog: every transformation primitive, its one-character
//! code, its argument micro-grammar, its evaluation, and its human-readable
//! description.  The set is closed: a code outside the catalog is a parse
//! error, never silently skipped.

use vstd::prelude::*;
use vstd::string::StringExecFns;

use crate::chars::{chars_of, concat2, concat3, concat5, decimal_string, spec_decimal, string_of};
use crate::eval;
use crate::eval::{spec_capture, SpecContext};
use crate::generate::{new_uuid, spec_is_uuid_v4};
use crate::number::{parse_number, spec_is_digit, spec_num_end, spec_number};
use crate::parse::{Error, ErrorKind, ParseResult, SpecError, SpecErrorKind};
use crate::path;
use crate::range::{spec_parse_range, Range};
use crate::reader::{seq_values, seq_width, Char, Reader};
use crate::regexp::{
    spec_regex_error, spec_regex_match, spec_regex_replace_all, spec_regex_replace_first,
    RegexHolder,
};
use crate::strings;
use crate::substitution::{
    spec_parse_regex_sub, spec_parse_string_sub, SpecSubstitution, Substitution,
};

verus! {

/// One transformation primitive.
#[derive(Debug, PartialEq)]
pub enum Filter {
    /// `a`: resolve against the working directory when relative.
    AbsolutePath,
    /// `A`: resolve against the filesystem (symlinks, `.`, `..`).
    CanonicalPath,
    /// `d`: everything before the last separator.
    ParentPath,
    /// `f`: everything after the last separator.
    FileName,
    /// `b`: the file name without its extension.
    BaseName,
    /// `e`: the extension without its dot.
    Extension,
    /// `E`: the extension with its dot.
    ExtensionWithDot,
    /// `n`: a character range, counted from the start.
    Substring(Range),
    /// `N`: a character range, counted from the end.
    SubstringBackward(Range),
    /// `r`: replace the first occurrence of a literal target.
    ReplaceFirst(Substitution<String>),
    /// `R`: replace every occurrence of a literal target.
    ReplaceAll(Substitution<String>),
    /// `?`: replace the whole value only when it is empty.
    ReplaceEmpty(String),
    /// `t`: strip leading and trailing white space.
    Trim,
    /// `l`: Unicode-aware lowercasing.
    ToLowercase,
    /// `L`: Unicode-aware uppercasing.
    ToUppercase,
    /// `i`: best-effort transliteration to ASCII.
    ToAscii,
    /// `I`: drop characters outside ASCII.
    RemoveNonAscii,
    /// `<`: pad on the left so the result covers the padding.
    LeftPad(String),
    /// `>`: pad on the right so the result covers the padding.
    RightPad(String),
    /// `m`: the first regular-expression match.
    RegexMatch(RegexHolder),
    /// `s`: replace the first regular-expression match.
    RegexReplaceFirst(Substitution<RegexHolder>),
    /// `S`: replace every regular-expression match.
    RegexReplaceAll(Substitution<RegexHolder>),
    /// A number: a capture group of the upstream match, 1-based.
    RegexCapture(usize),
    /// `c`: the per-directory counter.
    LocalCounter,
    /// `C`: the per-run counter.
    GlobalCounter,
    /// `u`: a freshly generated random version-4 UUID.
    Uuid,
}

/// Mathematical model of a filter; compiled regexes become their patterns.
pub enum SpecFilter {
    AbsolutePath,
    CanonicalPath,
    ParentPath,
    FileName,
    BaseName,
    Extension,
    ExtensionWithDot,
    Substring(Range),
    SubstringBackward(Range),
    ReplaceFirst(SpecSubstitution),
    ReplaceAll(SpecSubstitution),
    ReplaceEmpty(Seq<char>),
    Trim,
    ToLowercase,
    ToUppercase,
    ToAscii,
    RemoveNonAscii,
    LeftPad(Seq<char>),
    RightPad(Seq<char>),
    RegexMatch(Seq<char>),
    RegexReplaceFirst(SpecSubstitution),
    RegexReplaceAll(SpecSubstitution),
    RegexCapture(usize),
    LocalCounter,
    GlobalCounter,
    Uuid,
}

impl View for Filter {
    type V = SpecFilter;

    open spec fn view(&self) -> SpecFilter {
        match self {
            Filter::AbsolutePath => SpecFilter::AbsolutePath,
            Filter::CanonicalPath => SpecFilter::CanonicalPath,
            Filter::ParentPath => SpecFilter::ParentPath,
            Filter::FileName => SpecFilter::FileName,
            Filter::BaseName => SpecFilter::BaseName,
            Filter::Extension => SpecFilter::Extension,
            Filter::ExtensionWithDot => SpecFilter::ExtensionWithDot,
            Filter::Substring(r) => SpecFilter::Substring(*r),
            Filter::SubstringBackward(r) => SpecFilter::SubstringBackward(*r),
            Filter::ReplaceFirst(sub) => SpecFilter::ReplaceFirst(sub@),
            Filter::ReplaceAll(sub) => SpecFilter::ReplaceAll(sub@),
            Filter::ReplaceEmpty(r) => SpecFilter::ReplaceEmpty(r@),
            Filter::Trim => SpecFilter::Trim,
            Filter::ToLowercase => SpecFilter::ToLowercase,
            Filter::ToUppercase => SpecFilter::ToUppercase,
            Filter::ToAscii => SpecFilter::ToAscii,
            Filter::RemoveNonAscii => SpecFilter::RemoveNonAscii,
            Filter::LeftPad(p) => SpecFilter::LeftPad(p@),
            Filter::RightPad(p) => SpecFilter::RightPad(p@),
            Filter::RegexMatch(h) => SpecFilter::RegexMatch(h.spec_pattern()),
            Filter::RegexReplaceFirst(sub) => SpecFilter::RegexReplaceFirst(sub@),
            Filter::RegexReplaceAll(sub) => SpecFilter::RegexReplaceAll(sub@),
            Filter::RegexCapture(i) => SpecFilter::RegexCapture(*i),
            Filter::LocalCounter => SpecFilter::LocalCounter,
            Filter::GlobalCounter => SpecFilter::GlobalCounter,
            Filter::Uuid => SpecFilter::Uuid,
        }
    }
}

pub open spec fn spec_min(a: int, b: int) -> int {
    if a < b {
        a
    } else {
        b
    }
}

/// The slice of `v` a forward range selects: 1-based user indices have
/// already become a 0-based inclusive start and exclusive end, and indices
/// past the end clamp, never error.
pub open spec fn spec_substring(v: Seq<char>, r: Range) -> Seq<char> {
    let n = v.len() as int;
    match r {
        Range::From(a) => v.skip(spec_min(a as int, n)),
        Range::To(b) => v.take(spec_min(b as int, n)),
        Range::FromTo(a, b) => {
            let lo = spec_min(a as int, n);
            let hi = spec_min(b as int, n);
            if lo <= hi {
                v.subrange(lo, hi)
            } else {
                Seq::empty()
            }
        },
    }
}

/// The slice of `v` a backward range selects: the same range with its
/// indices counted from the end of the value.
pub open spec fn spec_substring_backward(v: Seq<char>, r: Range) -> Seq<char> {
    let n = v.len() as int;
    match r {
        Range::From(a) => v.take(n - spec_min(a as int, n)),
        Range::To(b) => v.skip(n - spec_min(b as int, n)),
        Range::FromTo(a, b) => {
            let lo = n - spec_min(b as int, n);
            let hi = n - spec_min(a as int, n);
            if lo <= hi {
                v.subrange(lo, hi)
            } else {
                Seq::empty()
            }
        },
    }
}

fn exec_min(a: usize, b: usize) -> (r: usize)
    ensures
        r == spec_min(a as int, b as int),
{
    if a < b {
        a
    } else {
        b
    }
}

/// The characters of `v` a forward range selects.
pub fn substring(v: &Vec<char>, r: &Range) -> (out: Vec<char>)
    ensures
        out@ == spec_substring(v@, *r),
{
    let n = v.len();
    let mut out: Vec<char> = Vec::new();
    match r {
        Range::From(a) => {
            let lo = exec_min(*a, n);
            strings::push_range(&mut out, v, lo, n);
            proof {
                assert(out@ =~= v@.skip(spec_min(*a as int, v@.len() as int)));
            }
        },
        Range::To(b) => {
            let hi = exec_min(*b, n);
            strings::push_range(&mut out, v, 0, hi);
            proof {
                assert(out@ =~= v@.take(spec_min(*b as int, v@.len() as int)));
            }
        },
        Range::FromTo(a, b) => {
            let lo = exec_min(*a, n);
            let hi = exec_min(*b, n);
            if lo <= hi {
                strings::push_range(&mut out, v, lo, hi);
                proof {
                    assert(out@ =~= v@.subrange(lo as int, hi as int));
                }
            } else {
                proof {
                    assert(out@ =~= Seq::<char>::empty());
                }
            }
        },
    }
    out
}

/// The characters of `v` a backward range selects.
pub fn substring_backward(v: &Vec<char>, r: &Range) -> (out: Vec<char>)
    ensures
        out@ == spec_substring_backward(v@, *r),
{
    let n = v.len();
    let mut out: Vec<char> = Vec::new();
    match r {
        Range::From(a) => {
            let hi = n - exec_min(*a, n);
            strings::push_range(&mut out, v, 0, hi);
            proof {
                assert(out@ =~= v@.take(v@.len() - spec_min(*a as int, v@.len() as int)));
            }
        },
        Range::To(b) => {
            let lo = n - exec_min(*b, n);
            strings::push_range(&mut out, v, lo, n);
            proof {
                assert(out@ =~= v@.skip(v@.len() - spec_min(*b as int, v@.len() as int)));
            }
        },
        Range::FromTo(a, b) => {
            let lo = n - exec_min(*b, n);
            let hi = n - exec_min(*a, n);
            if lo <= hi {
                strings::push_range(&mut out, v, lo, hi);
                proof {
                    assert(out@ =~= v@.subrange(lo as int, hi as int));
                }
            } else {
                proof {
                    assert(out@ =~= Seq::<char>::empty());
                }
            }
        },
    }
    out
}

/// What `Filter::parse` yields for the segment characters `s`, starting at
/// character index `i`, which sits at byte offset `pos` of the source.
/// A leading digit run names a capture group; otherwise the first character
/// is the filter code and the rest of the segment is its argument.
pub open spec fn spec_parse_filter(s: Seq<Char>, i: int, pos: int) -> Result<
    SpecFilter,
    SpecError,
> {
    if i < s.len() && spec_is_digit(s[i].spec_value()) {
        let n = spec_number(s, i);
        if n == 0 {
            Err(
                SpecError {
                    kind: SpecErrorKind::RegexCaptureZero,
                    start: pos,
                    end: pos + seq_width(s.subrange(i, spec_num_end(s, i))),
                },
            )
        } else {
            Ok(SpecFilter::RegexCapture(n as usize))
        }
    } else if i >= s.len() {
        Err(SpecError { kind: SpecErrorKind::ExpectedFilter, start: pos, end: pos })
    } else {
        let c = s[i].spec_value();
        let i1 = i + 1;
        let pos1 = pos + s[i].spec_width();
        if c == 'a' {
            Ok(SpecFilter::AbsolutePath)
        } else if c == 'A' {
            Ok(SpecFilter::CanonicalPath)
        } else if c == 'd' {
            Ok(SpecFilter::ParentPath)
        } else if c == 'f' {
            Ok(SpecFilter::FileName)
        } else if c == 'b' {
            Ok(SpecFilter::BaseName)
        } else if c == 'e' {
            Ok(SpecFilter::Extension)
        } else if c == 'E' {
            Ok(SpecFilter::ExtensionWithDot)
        } else if c == 'n' {
            match spec_parse_range(s, i1, pos1) {
                Ok(r) => Ok(SpecFilter::Substring(r)),
                Err(e) => Err(e),
            }
        } else if c == 'N' {
            match spec_parse_range(s, i1, pos1) {
                Ok(r) => Ok(SpecFilter::SubstringBackward(r)),
                Err(e) => Err(e),
            }
        } else if c == 'r' {
            match spec_parse_string_sub(s, i1, pos1) {
                Ok(sub) => Ok(SpecFilter::ReplaceFirst(sub)),
                Err(e) => Err(e),
            }
        } else if c == 'R' {
            match spec_parse_string_sub(s, i1, pos1) {
                Ok(sub) => Ok(SpecFilter::ReplaceAll(sub)),
                Err(e) => Err(e),
            }
        } else if c == '?' {
            Ok(SpecFilter::ReplaceEmpty(seq_values(s.skip(i1))))
        } else if c == 't' {
            Ok(SpecFilter::Trim)
        } else if c == 'l' {
            Ok(SpecFilter::ToLowercase)
        } else if c == 'L' {
            Ok(SpecFilter::ToUppercase)
        } else if c == 'i' {
            Ok(SpecFilter::ToAscii)
        } else if c == 'I' {
            Ok(SpecFilter::RemoveNonAscii)
        } else if c == '<' {
            Ok(SpecFilter::LeftPad(seq_values(s.skip(i1))))
        } else if c == '>' {
            Ok(SpecFilter::RightPad(seq_values(s.skip(i1))))
        } else if c == 'm' {
            if i1 >= s.len() {
                Err(SpecError { kind: SpecErrorKind::ExpectedRegex, start: pos1, end: pos1 })
            } else {
                match spec_regex_error(seq_values(s.skip(i1))) {
                    Option::None => Ok(SpecFilter::RegexMatch(seq_values(s.skip(i1)))),
                    Option::Some(m) => Err(
                        SpecError {
                            kind: SpecErrorKind::RegexInvalid(m),
                            start: pos1,
                            end: pos1 + seq_width(s.skip(i1)),
                        },
                    ),
                }
            }
        } else if c == 's' {
            match spec_parse_regex_sub(s, i1, pos1) {
                Ok(sub) => Ok(SpecFilter::RegexReplaceFirst(sub)),
                Err(e) => Err(e),
            }
        } else if c == 'S' {
            match spec_parse_regex_sub(s, i1, pos1) {
                Ok(sub) => Ok(SpecFilter::RegexReplaceAll(sub)),
                Err(e) => Err(e),
            }
        } else if c == 'c' {
            Ok(SpecFilter::LocalCounter)
        } else if c == 'C' {
            Ok(SpecFilter::GlobalCounter)
        } else if c == 'u' {
            Ok(SpecFilter::Uuid)
        } else {
            Err(SpecError { kind: SpecErrorKind::UnknownFilter(s[i]), start: pos, end: pos1 })
        }
    }
}

impl Filter {
    /// Parses one filter from the rest of a pipe segment: a capture-group
    /// number, or a one-character code followed by its argument.
    /// Characters left over after a complete filter are not consumed.
    pub fn parse(reader: &mut Reader) -> (r: ParseResult<Filter>)
        ensures
            crate::parse::res_view_deep(r) == spec_parse_filter(
                old(reader).spec_chars(),
                old(reader).spec_index(),
                old(reader).spec_position(),
            ),
    {
        let ghost s = reader.spec_chars();
        let ghost i0 = reader.spec_index();
        let position = reader.position();
        let leading_digit = match reader.peek_value() {
            Some(c) => '0' <= c && c <= '9',
            None => false,
        };
        if leading_digit {
            let number = match parse_number(reader) {
                Some(n) => n,
                None => {
                    proof {
                        assert(false);
                    }
                    0
                },
            };
            if number == 0 {
                return Err(
                    Error {
                        kind: ErrorKind::RegexCaptureZero,
                        start: position,
                        end: reader.position(),
                    },
                );
            }
            return Ok(Filter::RegexCapture(number));
        }
        let code = match reader.read() {
            Some(c) => c,
            None => {
                return Err(
                    Error { kind: ErrorKind::ExpectedFilter, start: position, end: position },
                );
            },
        };
        match code.value() {
            'a' => Ok(Filter::AbsolutePath),
            'A' => Ok(Filter::CanonicalPath),
            'd' => Ok(Filter::ParentPath),
            'f' => Ok(Filter::FileName),
            'b' => Ok(Filter::BaseName),
            'e' => Ok(Filter::Extension),
            'E' => Ok(Filter::ExtensionWithDot),
            'n' => {
                match Range::parse(reader) {
                    Ok(r) => Ok(Filter::Substring(r)),
                    Err(e) => Err(e),
                }
            },
            'N' => {
                match Range::parse(reader) {
                    Ok(r) => Ok(Filter::SubstringBackward(r)),
                    Err(e) => Err(e),
                }
            },
            'r' => {
                match Substitution::parse_string(reader) {
                    Ok(sub) => Ok(Filter::ReplaceFirst(sub)),
                    Err(e) => Err(e),
                }
            },
            'R' => {
                match Substitution::parse_string(reader) {
                    Ok(sub) => Ok(Filter::ReplaceAll(sub)),
                    Err(e) => Err(e),
                }
            },
            '?' => {
                let rest = reader.read_to_end();
                Ok(Filter::ReplaceEmpty(crate::reader::join_values(&rest)))
            },
            't' => Ok(Filter::Trim),
            'l' => Ok(Filter::ToLowercase),
            'L' => Ok(Filter::ToUppercase),
            'i' => Ok(Filter::ToAscii),
            'I' => Ok(Filter::RemoveNonAscii),
            '<' => {
                let rest = reader.read_to_end();
                Ok(Filter::LeftPad(crate::reader::join_values(&rest)))
            },
            '>' => {
                let rest = reader.read_to_end();
                Ok(Filter::RightPad(crate::reader::join_values(&rest)))
            },
            'm' => {
                let arg_start = reader.position();
                let arg_end = reader.end();
                let rest = reader.read_to_end();
                if rest.len() == 0 {
                    return Err(
                        Error { kind: ErrorKind::ExpectedRegex, start: arg_start, end: arg_start },
                    );
                }
                let pattern = crate::reader::join_values(&rest);
                match RegexHolder::new(pattern.as_str()) {
                    Ok(holder) => Ok(Filter::RegexMatch(holder)),
                    Err(message) => Err(
                        Error {
                            kind: ErrorKind::RegexInvalid(message),
                            start: arg_start,
                            end: arg_end,
                        },
                    ),
                }
            },
            's' => {
                match Substitution::parse_regex(reader) {
                    Ok(sub) => Ok(Filter::RegexReplaceFirst(sub)),
                    Err(e) => Err(e),
                }
            },
            'S' => {
                match Substitution::parse_regex(reader) {
                    Ok(sub) => Ok(Filter::RegexReplaceAll(sub)),
                    Err(e) => Err(e),
                }
            },
            'c' => Ok(Filter::LocalCounter),
            'C' => Ok(Filter::GlobalCounter),
            'u' => Ok(Filter::Uuid),
            _ => Err(
                Error {
                    kind: ErrorKind::UnknownFilter(code),
                    start: position,
                    end: reader.position(),
                },
            ),
        }
    }
}

/// What a successful evaluation of `f` on the value `v` returns.  Every
/// deterministic filter pins its output exactly; canonicalization may
/// return anything the filesystem reports, and a UUID is only promised its
/// shape.
pub open spec fn spec_filter_ok(
    f: SpecFilter,
    v: Seq<char>,
    ctx: SpecContext,
    out: Seq<char>,
) -> bool {
    match f {
        SpecFilter::AbsolutePath => out == path::spec_absolute(v, ctx.current_dir),
        SpecFilter::CanonicalPath => true,
        SpecFilter::ParentPath => out == path::spec_parent(v),
        SpecFilter::FileName => out == path::spec_file_name(v),
        SpecFilter::BaseName => out == path::spec_base_name(v),
        SpecFilter::Extension => out == path::spec_extension(v),
        SpecFilter::ExtensionWithDot => out == path::spec_extension_with_dot(v),
        SpecFilter::Substring(r) => out == spec_substring(v, r),
        SpecFilter::SubstringBackward(r) => out == spec_substring_backward(v, r),
        SpecFilter::ReplaceFirst(sub) => out == strings::spec_replace_first(
            v,
            sub.target,
            sub.replacement,
        ),
        SpecFilter::ReplaceAll(sub) => out == strings::spec_replace_all(
            v,
            sub.target,
            sub.replacement,
        ),
        SpecFilter::ReplaceEmpty(r) => out == if v.len() == 0 {
            r
        } else {
            v
        },
        SpecFilter::Trim => out == strings::spec_trim(v),
        SpecFilter::ToLowercase => out == strings::spec_lower(v),
        SpecFilter::ToUppercase => out == strings::spec_upper(v),
        SpecFilter::ToAscii => out == strings::spec_transliterate(v),
        SpecFilter::RemoveNonAscii => out == strings::spec_keep_ascii(v),
        SpecFilter::LeftPad(p) => out == strings::spec_left_pad(v, p),
        SpecFilter::RightPad(p) => out == strings::spec_right_pad(v, p),
        SpecFilter::RegexMatch(p) => out == spec_regex_match(p, v),
        SpecFilter::RegexReplaceFirst(sub) => out == spec_regex_replace_first(
            sub.target,
            v,
            sub.replacement,
        ),
        SpecFilter::RegexReplaceAll(sub) => out == spec_regex_replace_all(
            sub.target,
            v,
            sub.replacement,
        ),
        SpecFilter::RegexCapture(i) => out == spec_capture(ctx.regex_captures, i as int),
        SpecFilter::LocalCounter => out == spec_decimal(ctx.local_counter as nat),
        SpecFilter::GlobalCounter => out == spec_decimal(ctx.global_counter as nat),
        SpecFilter::Uuid => spec_is_uuid_v4(out),
    }
}

/// When evaluating `f` may fail, and with what: only canonicalization can
/// fail, with the filesystem's message.
pub open spec fn spec_filter_err(
    f: SpecFilter,
    v: Seq<char>,
    ctx: SpecContext,
    kind: eval::SpecErrorKind,
) -> bool {
    match f {
        SpecFilter::CanonicalPath => kind is CanonicalizationFailed,
        _ => false,
    }
}

impl Filter {
    /// Applies this filter to one value.  Every filter except
    /// canonicalization succeeds on every value.
    pub fn eval(&self, value: String, context: &eval::Context) -> (r: Result<
        String,
        eval::ErrorKind,
    >)
        ensures
            match r {
                Ok(out) => spec_filter_ok(self@, value@, context@, out@),
                Err(kind) => spec_filter_err(self@, value@, context@, kind@),
            },
            !(self@ is CanonicalPath) ==> r is Ok,
    {
        match self {
            Filter::AbsolutePath => {
                let v = chars_of(value.as_str());
                let cur = chars_of(context.current_dir.as_str());
                Ok(string_of(&path::absolute(&v, &cur)))
            },
            Filter::CanonicalPath => {
                let v = chars_of(value.as_str());
                let cur = chars_of(context.current_dir.as_str());
                let joined = string_of(&path::absolute(&v, &cur));
                match path::canonicalize(joined.as_str()) {
                    Ok(resolved) => Ok(resolved),
                    Err(message) => Err(eval::ErrorKind::CanonicalizationFailed(message)),
                }
            },
            Filter::ParentPath => {
                let v = chars_of(value.as_str());
                Ok(string_of(&path::parent(&v)))
            },
            Filter::FileName => {
                let v = chars_of(value.as_str());
                Ok(string_of(&path::file_name(&v)))
            },
            Filter::BaseName => {
                let v = chars_of(value.as_str());
                Ok(string_of(&path::base_name(&v)))
            },
            Filter::Extension => {
                let v = chars_of(value.as_str());
                Ok(string_of(&path::extension(&v)))
            },
            Filter::ExtensionWithDot => {
                let v = chars_of(value.as_str());
                Ok(string_of(&path::extension_with_dot(&v)))
            },
            Filter::Substring(range) => {
                let v = chars_of(value.as_str());
                Ok(string_of(&substring(&v, range)))
            },
            Filter::SubstringBackward(range) => {
                let v = chars_of(value.as_str());
                Ok(string_of(&substring_backward(&v, range)))
            },
            Filter::ReplaceFirst(sub) => {
                let v = chars_of(value.as_str());
                let target = chars_of(sub.target.as_str());
                let replacement = chars_of(sub.replacement.as_str());
                Ok(string_of(&strings::replace_first(&v, &target, &replacement)))
            },
            Filter::ReplaceAll(sub) => {
                let v = chars_of(value.as_str());
                let target = chars_of(sub.target.as_str());
                let replacement = chars_of(sub.replacement.as_str());
                Ok(string_of(&strings::replace_all(&v, &target, &replacement)))
            },
            Filter::ReplaceEmpty(replacement) => {
                let v = chars_of(value.as_str());
                let r = chars_of(replacement.as_str());
                Ok(string_of(&strings::replace_empty(&v, &r)))
            },
            Filter::Trim => {
                let v = chars_of(value.as_str());
                Ok(string_of(&strings::trim(&v)))
            },
            Filter::ToLowercase => Ok(strings::to_lowercase(value.as_str())),
            Filter::ToUppercase => Ok(strings::to_uppercase(value.as_str())),
            Filter::ToAscii => Ok(strings::to_ascii(value.as_str())),
            Filter::RemoveNonAscii => {
                let v = chars_of(value.as_str());
                Ok(string_of(&strings::remove_non_ascii(&v)))
            },
            Filter::LeftPad(padding) => {
                let v = chars_of(value.as_str());
                let p = chars_of(padding.as_str());
                Ok(string_of(&strings::left_pad(&v, &p)))
            },
            Filter::RightPad(padding) => {
                let v = chars_of(value.as_str());
                let p = chars_of(padding.as_str());
                Ok(string_of(&strings::right_pad(&v, &p)))
            },
            Filter::RegexMatch(holder) => Ok(holder.find_match(value.as_str())),
            Filter::RegexReplaceFirst(sub) => Ok(
                sub.target.replace_first(value.as_str(), sub.replacement.as_str()),
            ),
            Filter::RegexReplaceAll(sub) => Ok(
                sub.target.replace_all(value.as_str(), sub.replacement.as_str()),
            ),
            Filter::RegexCapture(index) => Ok(eval::capture(&context.regex_captures, *index)),
            Filter::LocalCounter => Ok(decimal_string(context.local_counter as u64)),
            Filter::GlobalCounter => Ok(decimal_string(context.global_counter as u64)),
            Filter::Uuid => Ok(new_uuid()),
        }
    }
}

/// The wording `Filter::describe` uses for each filter.
pub open spec fn spec_describe_filter(f: SpecFilter) -> Seq<char> {
    match f {
        SpecFilter::AbsolutePath => "Absolute path"@,
        SpecFilter::CanonicalPath => "Canonical path"@,
        SpecFilter::ParentPath => "Parent path"@,
        SpecFilter::FileName => "File name"@,
        SpecFilter::BaseName => "Base name"@,
        SpecFilter::Extension => "Extension"@,
        SpecFilter::ExtensionWithDot => "Extension with dot"@,
        SpecFilter::Substring(r) => "Substring "@ + r.spec_describe(),
        SpecFilter::SubstringBackward(r) => "Substring (backward) "@ + r.spec_describe(),
        SpecFilter::ReplaceFirst(sub) => "Replace first '"@ + sub.target + "' by '"@
            + sub.replacement + "'"@,
        SpecFilter::ReplaceAll(sub) => "Replace all '"@ + sub.target + "' by '"@
            + sub.replacement + "'"@,
        SpecFilter::ReplaceEmpty(r) => "Replace empty with '"@ + r + "'"@,
        SpecFilter::Trim => "Trim"@,
        SpecFilter::ToLowercase => "To lowercase"@,
        SpecFilter::ToUppercase => "To uppercase"@,
        SpecFilter::ToAscii => "To ASCII"@,
        SpecFilter::RemoveNonAscii => "Remove non-ASCII"@,
        SpecFilter::LeftPad(p) => "Left pad with '"@ + p + "'"@,
        SpecFilter::RightPad(p) => "Right pad with '"@ + p + "'"@,
        SpecFilter::RegexMatch(p) => "Regular expression '"@ + p + "' match"@,
        SpecFilter::RegexReplaceFirst(sub) => "Replace first regular expression '"@ + sub.target
            + "' by '"@ + sub.replacement + "'"@,
        SpecFilter::RegexReplaceAll(sub) => "Replace all regular expressions '"@ + sub.target
            + "' by '"@ + sub.replacement + "'"@,
        SpecFilter::RegexCapture(i) => "Regular expression capture group #"@ + spec_decimal(
            i as nat,
        ),
        SpecFilter::LocalCounter => "Local counter"@,
        SpecFilter::GlobalCounter => "Global counter"@,
        SpecFilter::Uuid => "UUID"@,
    }
}

impl Filter {
    /// A human-readable, one-line description of this filter, used by the
    /// explain rendering.
    pub fn describe(&self) -> (r: String)
        ensures
            r@ == spec_describe_filter(self@),
    {
        match self {
            Filter::AbsolutePath => String::from_str("Absolute path"),
            Filter::CanonicalPath => String::from_str("Canonical path"),
            Filter::ParentPath => String::from_str("Parent path"),
            Filter::FileName => String::from_str("File name"),
            Filter::BaseName => String::from_str("Base name"),
            Filter::Extension => String::from_str("Extension"),
            Filter::ExtensionWithDot => String::from_str("Extension with dot"),
            Filter::Substring(range) => {
                let r = range.describe();
                concat2("Substring ", r.as_str())
            },
            Filter::SubstringBackward(range) => {
                let r = range.describe();
                concat2("Substring (backward) ", r.as_str())
            },
            Filter::ReplaceFirst(sub) => concat5(
                "Replace first '",
                sub.target.as_str(),
                "' by '",
                sub.replacement.as_str(),
                "'",
            ),
            Filter::ReplaceAll(sub) => concat5(
                "Replace all '",
                sub.target.as_str(),
                "' by '",
                sub.replacement.as_str(),
                "'",
            ),
            Filter::ReplaceEmpty(replacement) => concat3(
                "Replace empty with '",
                replacement.as_str(),
                "'",
            ),
            Filter::Trim => String::from_str("Trim"),
            Filter::ToLowercase => String::from_str("To lowercase"),
            Filter::ToUppercase => String::from_str("To uppercase"),
            Filter::ToAscii => String::from_str("To ASCII"),
            Filter::RemoveNonAscii => String::from_str("Remove non-ASCII"),
            Filter::LeftPad(padding) => concat3("Left pad with '", padding.as_str(), "'"),
            Filter::RightPad(padding) => concat3("Right pad with '", padding.as_str(), "'"),
            Filter::RegexMatch(holder) => concat3(
                "Regular expression '",
                holder.pattern(),
                "' match",
            ),
            Filter::RegexReplaceFirst(sub) => concat5(
                "Replace first regular expression '",
                sub.target.pattern(),
                "' by '",
                sub.replacement.as_str(),
                "'",
            ),
            Filter::RegexReplaceAll(sub) => concat5(
                "Replace all regular expressions '",
                sub.target.pattern(),
                "' by '",
                sub.replacement.as_str(),
                "'",
            ),
            Filter::RegexCapture(index) => {
                let num = decimal_string(*index as u64);
                concat2("Regular expression capture group #", num.as_str())
            },
            Filter::LocalCounter => String::from_str("Local counter"),
            Filter::GlobalCounter => String::from_str("Global counter"),
            Filter::Uuid => String::from_str("UUID"),
        }
    }
}

} // verus!
