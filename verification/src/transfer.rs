//! Reading path transfers: the record format the companion bulk-move and
//! bulk-copy tools consume.  Records alternate an input path prefixed by
//! `<` and an output path prefixed by `>`; positions in error messages
//! count records and byte offsets.

use vstd::prelude::*;
use vstd::string::StringExecFns;

use crate::chars::{
    chars_of, decimal_string, push_char, spec_bytes_len, spec_char_byte_len, spec_decimal,
    string_of,
};
use crate::strings::push_range;

verus! {

/// Where a record ends: at a newline, or at a custom delimiter character.
#[derive(Debug, PartialEq, Eq, Structural, Clone, Copy)]
pub enum Terminator {
    Newline,
    Char(char),
}

pub open spec fn spec_term_char(t: Terminator) -> char {
    match t {
        Terminator::Newline => '\n',
        Terminator::Char(c) => c,
    }
}

/// A reading position: which record comes next, and at which byte offset
/// of the input it starts.
#[derive(Debug, PartialEq, Eq, Structural, Clone, Copy)]
pub struct Position {
    item: usize,
    offset: usize,
}

/// `"item #<item> at offset <offset>"`.
pub open spec fn spec_position_text(item: nat, offset: nat) -> Seq<char> {
    "item #"@ + spec_decimal(item) + " at offset "@ + spec_decimal(offset)
}

impl Position {
    pub closed spec fn spec_item(self) -> nat {
        self.item as nat
    }

    pub closed spec fn spec_offset(self) -> nat {
        self.offset as nat
    }

    /// The position of the first record: item one, offset zero.
    pub fn new() -> (p: Position)
        ensures
            p.spec_item() == 1,
            p.spec_offset() == 0,
    {
        Position { item: 1, offset: 0 }
    }

    /// Steps past one record of `size` bytes.
    pub fn increment(&mut self, size: usize)
        requires
            old(self).spec_item() < usize::MAX,
            old(self).spec_offset() + size <= usize::MAX,
        ensures
            final(self).spec_item() == old(self).spec_item() + 1,
            final(self).spec_offset() == old(self).spec_offset() + size,
    {
        self.item = self.item + 1;
        self.offset = self.offset + size;
    }

    /// Renders the position for an error message.
    pub fn describe(&self) -> (r: String)
        ensures
            r@ == spec_position_text(self.spec_item(), self.spec_offset()),
    {
        let mut out = String::new();
        out.append("item #");
        let item_text = decimal_string(self.item as u64);
        out.append(item_text.as_str());
        out.append(" at offset ");
        let offset_text = decimal_string(self.offset as u64);
        out.append(offset_text.as_str());
        proof {
            assert(out@ =~= spec_position_text(self.spec_item(), self.spec_offset()));
        }
        out
    }
}

/// What went wrong while reading a transfer.
#[derive(Debug, PartialEq, Eq, Structural, Clone, Copy)]
pub enum TransferErrorKind {
    /// A record does not start with the expected prefix.
    InvalidData,
    /// The input ends where a record or a path was expected.
    UnexpectedEof,
}

/// A transfer-reading error: a kind and a rendered message naming the
/// position.
#[derive(Debug, PartialEq)]
pub struct TransferError {
    pub kind: TransferErrorKind,
    pub message: String,
}

/// Mathematical model of a transfer-reading error.
pub struct SpecTransferError {
    pub kind: TransferErrorKind,
    pub message: Seq<char>,
}

impl View for TransferError {
    type V = SpecTransferError;

    open spec fn view(&self) -> SpecTransferError {
        SpecTransferError { kind: self.kind, message: self.message@ }
    }
}

/// `"Expected '<prefix>' (<position>)"`.
pub open spec fn spec_eof_message(prefix: char, item: nat, offset: nat) -> Seq<char> {
    "Expected '"@ + seq![prefix] + "' ("@ + spec_position_text(item, offset) + ")"@
}

/// The error reported when the input ends where a record was expected.
pub fn make_unexpected_eof_error(position: &Position, prefix: char) -> (e: TransferError)
    ensures
        e@.kind == TransferErrorKind::UnexpectedEof,
        e@.message == spec_eof_message(prefix, position.spec_item(), position.spec_offset()),
{
    let mut message = String::new();
    message.append("Expected '");
    push_char(&mut message, prefix);
    message.append("' (");
    let position_text = position.describe();
    message.append(position_text.as_str());
    message.append(")");
    proof {
        assert(message@ =~= spec_eof_message(
            prefix,
            position.spec_item(),
            position.spec_offset(),
        ));
    }
    TransferError { kind: TransferErrorKind::UnexpectedEof, message }
}

/// What extracting a prefixed path from one record value yields: the rest
/// after the prefix, or the exact error the record deserves.
pub open spec fn spec_extract_path(
    value: Seq<char>,
    prefix: char,
    item: nat,
    offset: nat,
) -> Result<Seq<char>, SpecTransferError> {
    if value.len() == 0 {
        Err(
            SpecTransferError {
                kind: TransferErrorKind::UnexpectedEof,
                message: spec_eof_message(prefix, item, offset),
            },
        )
    } else if value[0] != prefix {
        Err(
            SpecTransferError {
                kind: TransferErrorKind::InvalidData,
                message: "Expected '"@ + seq![prefix] + "' but got '"@ + seq![value[0]] + "' ("@
                    + spec_position_text(item, offset) + ")"@,
            },
        )
    } else if value.len() == 1 {
        Err(
            SpecTransferError {
                kind: TransferErrorKind::UnexpectedEof,
                message: "Expected a path after '"@ + seq![prefix] + "' ("@
                    + spec_position_text(item, offset) + ")"@,
            },
        )
    } else {
        Ok(value.drop_first())
    }
}

/// Extracts the path of one record value, which must start with `prefix`
/// and must not be empty after it.
pub fn extract_path(value: &str, position: &Position, prefix: char) -> (r: Result<
    String,
    TransferError,
>)
    ensures
        match r {
            Ok(p) => spec_extract_path(
                value@,
                prefix,
                position.spec_item(),
                position.spec_offset(),
            ) == Ok::<Seq<char>, SpecTransferError>(p@),
            Err(e) => spec_extract_path(
                value@,
                prefix,
                position.spec_item(),
                position.spec_offset(),
            ) == Err::<Seq<char>, SpecTransferError>(e@),
        },
{
    let chars = chars_of(value);
    if chars.len() == 0 {
        return Err(make_unexpected_eof_error(position, prefix));
    }
    let first = chars[0];
    if first != prefix {
        let mut message = String::new();
        message.append("Expected '");
        push_char(&mut message, prefix);
        message.append("' but got '");
        push_char(&mut message, first);
        message.append("' (");
        let position_text = position.describe();
        message.append(position_text.as_str());
        message.append(")");
        proof {
            assert(message@ =~= "Expected '"@ + seq![prefix] + "' but got '"@ + seq![value@[0]]
                + "' ("@ + spec_position_text(position.spec_item(), position.spec_offset())
                + ")"@);
        }
        return Err(TransferError { kind: TransferErrorKind::InvalidData, message });
    }
    if chars.len() == 1 {
        let mut message = String::new();
        message.append("Expected a path after '");
        push_char(&mut message, prefix);
        message.append("' (");
        let position_text = position.describe();
        message.append(position_text.as_str());
        message.append(")");
        proof {
            assert(message@ =~= "Expected a path after '"@ + seq![prefix] + "' ("@
                + spec_position_text(position.spec_item(), position.spec_offset()) + ")"@);
        }
        return Err(TransferError { kind: TransferErrorKind::UnexpectedEof, message });
    }
    let mut rest: Vec<char> = Vec::new();
    push_range(&mut rest, &chars, 1, chars.len());
    proof {
        assert(rest@ =~= value@.drop_first());
    }
    Ok(string_of(&rest))
}

/// First index at or after `i` holding `c`, or the length of `s`.
pub open spec fn spec_find_char(s: Seq<char>, i: int, c: char) -> int
    decreases s.len() - i,
    when 0 <= i <= s.len()
{
    if i < s.len() {
        if s[i] == c {
            i
        } else {
            spec_find_char(s, i + 1, c)
        }
    } else {
        i
    }
}

pub proof fn lemma_find_char(s: Seq<char>, i: int, c: char)
    requires
        0 <= i <= s.len(),
    ensures
        i <= spec_find_char(s, i, c) <= s.len(),
        spec_find_char(s, i, c) < s.len() ==> s[spec_find_char(s, i, c)] == c,
    decreases s.len() - i,
{
    if i < s.len() && s[i] != c {
        lemma_find_char(s, i + 1, c);
    }
}

/// The value of the record starting at `i`: the characters before the
/// terminator, with one trailing carriage return removed under the
/// newline terminator.
pub open spec fn spec_record_value(s: Seq<char>, i: int, j: int, t: Terminator) -> Seq<char> {
    let raw = s.subrange(i, j);
    if t is Newline && raw.len() > 0 && raw.last() == '\r' {
        raw.drop_last()
    } else {
        raw
    }
}

/// The bytes the record starting at `i` covers, terminator included.
pub open spec fn spec_record_size(s: Seq<char>, i: int, j: int, t: Terminator) -> nat {
    spec_bytes_len(s.subrange(i, j)) + if j < s.len() {
        spec_char_byte_len(spec_term_char(t))
    } else {
        0
    }
}

/// The cursor after the record starting at `i`.
pub open spec fn spec_record_next(s: Seq<char>, j: int) -> int {
    if j < s.len() {
        j + 1
    } else {
        j
    }
}

/// A reader of path transfers over one input text: pairs of records, the
/// first prefixed by `<`, the second by `>`.
pub struct PathDiff {
    chars: Vec<char>,
    index: usize,
    terminator: Terminator,
    position: Position,
}

/// What one `read` call yields and the state it leaves: `Ok(None)` at the
/// end of the input, a pair of paths from two well-formed records, or the
/// first record's exact error.
pub open spec fn spec_read(s: Seq<char>, i: int, t: Terminator, item: nat, offset: nat) -> (
    Result<Option<(Seq<char>, Seq<char>)>, SpecTransferError>,
    int,
    nat,
    nat,
)
    recommends
        0 <= i <= s.len(),
{
    if i >= s.len() {
        (Ok(None), i, item, offset)
    } else {
        let j1 = spec_find_char(s, i, spec_term_char(t));
        let v1 = spec_record_value(s, i, j1, t);
        let size1 = spec_record_size(s, i, j1, t);
        let i1 = spec_record_next(s, j1);
        match spec_extract_path(v1, '<', item, offset) {
            Err(e) => (Err(e), i1, item, offset),
            Ok(p1) => {
                let item1 = (item + 1) as nat;
                let offset1 = (offset + size1) as nat;
                if i1 >= s.len() {
                    (
                        Err(
                            SpecTransferError {
                                kind: TransferErrorKind::UnexpectedEof,
                                message: spec_eof_message('>', item1, offset1),
                            },
                        ),
                        i1,
                        item1,
                        offset1,
                    )
                } else {
                    let j2 = spec_find_char(s, i1, spec_term_char(t));
                    let v2 = spec_record_value(s, i1, j2, t);
                    let size2 = spec_record_size(s, i1, j2, t);
                    let i2 = spec_record_next(s, j2);
                    match spec_extract_path(v2, '>', item1, offset1) {
                        Err(e) => (Err(e), i2, item1, offset1),
                        Ok(p2) => (
                            Ok(Some((p1, p2))),
                            i2,
                            (item1 + 1) as nat,
                            (offset1 + size2) as nat,
                        ),
                    }
                }
            },
        }
    }
}

impl PathDiff {
    pub closed spec fn spec_chars(self) -> Seq<char> {
        self.chars@
    }

    pub closed spec fn spec_index(self) -> int {
        self.index as int
    }

    pub closed spec fn spec_terminator(self) -> Terminator {
        self.terminator
    }

    pub closed spec fn spec_position(self) -> (nat, nat) {
        (self.position.spec_item(), self.position.spec_offset())
    }

    /// The reader stays inside its input; its byte offset never outruns
    /// its cursor, and the record count never outruns the offset.
    pub closed spec fn wf(self) -> bool {
        &&& self.index <= self.chars@.len()
        &&& self.position.spec_offset() <= spec_bytes_len(self.chars@.take(self.index as int))
        &&& spec_bytes_len(self.chars@) < usize::MAX
        &&& 1 <= self.position.spec_item()
        &&& self.position.spec_item() <= 1 + self.position.spec_offset()
    }

    /// A reader over `input`, before its first record.
    pub fn new(input: &str, terminator: Terminator) -> (r: PathDiff)
        ensures
            r.wf(),
            r.spec_chars() == input@,
            r.spec_index() == 0,
            r.spec_terminator() == terminator,
            r.spec_position() == (1nat, 0nat),
    {
        let chars = chars_of(input);
        proof {
            assert(chars@.take(0) =~= Seq::<char>::empty());
        }
        PathDiff { chars, index: 0, terminator, position: Position::new() }
    }

    /// Reads one record ending at the terminator, returning its value,
    /// its size in bytes (terminator included) and leaving the cursor
    /// after it.
    fn read_record(&mut self) -> (r: (String, usize))
        requires
            old(self).wf(),
            old(self).spec_index() < old(self).spec_chars().len(),
        ensures
            final(self).wf(),
            final(self).spec_chars() == old(self).spec_chars(),
            final(self).spec_terminator() == old(self).spec_terminator(),
            final(self).spec_position() == old(self).spec_position(),
            ({
                let s = old(self).spec_chars();
                let i = old(self).spec_index();
                let t = old(self).spec_terminator();
                let j = spec_find_char(s, i, spec_term_char(t));
                &&& r.0@ == spec_record_value(s, i, j, t)
                &&& r.1 == spec_record_size(s, i, j, t)
                &&& final(self).spec_index() == spec_record_next(s, j)
                &&& r.1 >= 1
                &&& old(self).spec_position().1 + r.1 <= spec_bytes_len(
                    s.take(spec_record_next(s, j)),
                )
            }),
    {
        let ghost s = self.chars@;
        let ghost i0 = self.index as int;
        let ghost t = self.terminator;
        let term = match self.terminator {
            Terminator::Newline => '\n',
            Terminator::Char(c) => c,
        };
        proof {
            lemma_find_char(s, i0, spec_term_char(t));
        }
        let mut j = self.index;
        while j < self.chars.len() && self.chars[j] != term
            invariant
                0 <= i0 <= j <= s.len(),
                self.chars@ == s,
                spec_find_char(s, i0, spec_term_char(t)) == spec_find_char(s, j as int, spec_term_char(t)),
                term == spec_term_char(t),
            decreases s.len() - j,
        {
            j = j + 1;
        }
        proof {
            assert(j == spec_find_char(s, i0, spec_term_char(t)));
        }
        let mut raw: Vec<char> = Vec::new();
        push_range(&mut raw, &self.chars, self.index, j);
        proof {
            assert(raw@ =~= s.subrange(i0, j as int));
        }
        let ghost jj = j as int;
        proof {
            crate::lexer::lemma_offset_step(s, i0, jj);
            assert(spec_bytes_len(s.take(s.len() as int)) == spec_bytes_len(s)) by {
                assert(s.take(s.len() as int) =~= s);
            }
            crate::lexer::lemma_offset_step(s, 0, i0);
            crate::lexer::lemma_offset_step(s, 0, jj);
        }
        let size_body = crate::chars::bytes_len_of(&raw);
        let size: usize;
        let next: usize;
        if j < self.chars.len() {
            proof {
                crate::chars::lemma_bytes_len_strict(s, jj);
                crate::lexer::lemma_offset_step(s, i0, jj + 1);
                assert(s.subrange(i0, jj + 1) =~= s.subrange(i0, jj).push(s[jj]));
                crate::chars::lemma_bytes_len_push(s.subrange(i0, jj), s[jj]);
                crate::lexer::lemma_offset_step(s, 0, jj + 1);
            }
            size = size_body + crate::chars::char_byte_len(self.chars[j]);
            next = j + 1;
        } else {
            proof {
                crate::lexer::lemma_offset_step(s, 0, jj);
                if i0 == jj {
                    assert(s.subrange(i0, jj) =~= Seq::<char>::empty());
                    assert(false);
                }
                assert(s.subrange(i0, jj)[0] == s[i0]);
                assert(spec_bytes_len(s.subrange(i0, jj)) == spec_char_byte_len(
                    s.subrange(i0, jj)[0],
                ) + spec_bytes_len(s.subrange(i0, jj).drop_first()));
            }
            size = size_body;
            next = j;
        }
        self.index = next;
        let trim_cr = match self.terminator {
            Terminator::Newline => raw.len() > 0 && raw[raw.len() - 1] == '\r',
            Terminator::Char(_) => false,
        };
        if trim_cr {
            let _ = raw.pop();
            proof {
                assert(raw@ =~= s.subrange(i0, jj).drop_last());
            }
        }
        (string_of(&raw), size)
    }

    /// Reads one transfer: an input path prefixed by `<` and an output
    /// path prefixed by `>`, or `None` at the end of the input, or the
    /// first record's exact error.
    pub fn read(&mut self) -> (r: Result<Option<(String, String)>, TransferError>)
        requires
            old(self).wf(),
        ensures
            final(self).wf(),
            final(self).spec_chars() == old(self).spec_chars(),
            final(self).spec_terminator() == old(self).spec_terminator(),
            ({
                let outcome = spec_read(
                    old(self).spec_chars(),
                    old(self).spec_index(),
                    old(self).spec_terminator(),
                    old(self).spec_position().0,
                    old(self).spec_position().1,
                );
                &&& match r {
                    Ok(Option::None) => outcome.0 == Ok::<
                        Option<(Seq<char>, Seq<char>)>,
                        SpecTransferError,
                    >(None),
                    Ok(Option::Some((a, b))) => outcome.0 == Ok::<
                        Option<(Seq<char>, Seq<char>)>,
                        SpecTransferError,
                    >(Some((a@, b@))),
                    Err(e) => outcome.0 == Err::<
                        Option<(Seq<char>, Seq<char>)>,
                        SpecTransferError,
                    >(e@),
                }
                &&& final(self).spec_index() == outcome.1
                &&& final(self).spec_position() == (outcome.2, outcome.3)
            }),
    {
        let ghost s = self.chars@;
        let ghost i0 = self.index as int;
        let ghost t = self.terminator;
        let ghost pos0 = self.position;
        if self.index >= self.chars.len() {
            return Ok(None);
        }
        let (value1, size1) = self.read_record();
        let first = match extract_path(value1.as_str(), &self.position, '<') {
            Ok(p) => p,
            Err(e) => {
                return Err(e);
            },
        };
        proof {
            crate::chars::lemma_bytes_len_strict(s, i0);
            crate::lexer::lemma_offset_step(s, 0, self.spec_index());
        }
        self.position.increment(size1);
        if self.index >= self.chars.len() {
            return Err(make_unexpected_eof_error(&self.position, '>'));
        }
        let ghost i1 = self.spec_index();
        let (value2, size2) = self.read_record();
        let second = match extract_path(value2.as_str(), &self.position, '>') {
            Ok(p) => p,
            Err(e) => {
                return Err(e);
            },
        };
        proof {
            crate::chars::lemma_bytes_len_strict(s, i1);
            crate::lexer::lemma_offset_step(s, 0, i1);
            crate::lexer::lemma_offset_step(s, 0, self.spec_index());
        }
        self.position.increment(size2);
        Ok(Some((first, second)))
    }
}

} // verus!
