//! The lexer: turns pattern source text into a stream of tokens.  Outside
//! an expression, raw text runs until an unescaped `{` or `}` (`{{` and
//! `}}` stand for literal braces); inside an expression, raw text runs
//! until an unescaped `{`, `}` or `|` (`|{`, `|}` and `||` stand for the
//! literal characters).  Every token records the byte offset of its first
//! character in the source; the stream is total — every source byte
//! belongs to exactly one token.

use vstd::prelude::*;

use crate::chars::{char_byte_len, chars_of, lemma_bytes_len_push, spec_bytes_len, spec_char_byte_len};
use crate::reader::{join_values, seq_values, Char};

verus! {

/// A token of the outer pattern grammar.
#[derive(Debug, PartialEq)]
pub enum TokenType {
    /// A run of raw text, escapes already resolved.
    Raw(String),
    /// An unescaped `{`.
    ExprStart,
    /// An unescaped `}`.
    ExprEnd,
    /// An unescaped `|` inside an expression.
    Pipe,
}

/// A token and the byte offset of its first character in the source.
#[derive(Debug, PartialEq)]
pub struct Token {
    pub typ: TokenType,
    pub position: usize,
}

/// Mathematical model of a token type.
pub enum SpecTokenType {
    Raw(Seq<char>),
    ExprStart,
    ExprEnd,
    Pipe,
}

/// Mathematical model of a token.
pub struct SpecToken {
    pub typ: SpecTokenType,
    pub position: int,
}

impl View for TokenType {
    type V = SpecTokenType;

    open spec fn view(&self) -> SpecTokenType {
        match self {
            TokenType::Raw(s) => SpecTokenType::Raw(s@),
            TokenType::ExprStart => SpecTokenType::ExprStart,
            TokenType::ExprEnd => SpecTokenType::ExprEnd,
            TokenType::Pipe => SpecTokenType::Pipe,
        }
    }
}

impl View for Token {
    type V = SpecToken;

    open spec fn view(&self) -> SpecToken {
        SpecToken { typ: self.typ@, position: self.position as int }
    }
}

/// A token that still carries the source width of each raw character, for
/// the parser's exact byte ranges.
pub enum Lexeme {
    Raw(Vec<Char>),
    ExprStart,
    ExprEnd,
    Pipe,
}

/// Mathematical model of a positioned token.
pub enum SpecLexeme {
    Raw(Seq<Char>),
    ExprStart,
    ExprEnd,
    Pipe,
}

impl View for Lexeme {
    type V = SpecLexeme;

    open spec fn view(&self) -> SpecLexeme {
        match self {
            Lexeme::Raw(cs) => SpecLexeme::Raw(cs@),
            Lexeme::ExprStart => SpecLexeme::ExprStart,
            Lexeme::ExprEnd => SpecLexeme::ExprEnd,
            Lexeme::Pipe => SpecLexeme::Pipe,
        }
    }
}

/// The maximal raw run starting at `i` outside an expression, and the index
/// where it stops: ordinary characters are consumed as themselves, `{{` and
/// `}}` are consumed as escaped braces, and a single `{` or `}` stops the
/// run.
pub open spec fn spec_scan_outside(src: Seq<char>, i: int) -> (Seq<Char>, int)
    decreases src.len() - i,
    when 0 <= i <= src.len()
{
    if i >= src.len() {
        (Seq::empty(), i)
    } else {
        let c = src[i];
        if c == '{' || c == '}' {
            if i + 1 < src.len() && src[i + 1] == c {
                let rest = spec_scan_outside(src, i + 2);
                (seq![Char::Escaped(c)] + rest.0, rest.1)
            } else {
                (Seq::empty(), i)
            }
        } else {
            let rest = spec_scan_outside(src, i + 1);
            (seq![Char::Raw(c)] + rest.0, rest.1)
        }
    }
}

/// The maximal raw run starting at `i` inside an expression, and the index
/// where it stops: `|{`, `|}` and `||` are consumed as escaped characters,
/// and a single `{`, `}` or `|` stops the run.
pub open spec fn spec_scan_inside(src: Seq<char>, i: int) -> (Seq<Char>, int)
    decreases src.len() - i,
    when 0 <= i <= src.len()
{
    if i >= src.len() {
        (Seq::empty(), i)
    } else {
        let c = src[i];
        if c == '|' {
            if i + 1 < src.len() && (src[i + 1] == '{' || src[i + 1] == '}' || src[i + 1]
                == '|') {
                let rest = spec_scan_inside(src, i + 2);
                (seq![Char::Escaped(src[i + 1])] + rest.0, rest.1)
            } else {
                (Seq::empty(), i)
            }
        } else if c == '{' || c == '}' {
            (Seq::empty(), i)
        } else {
            let rest = spec_scan_inside(src, i + 1);
            (seq![Char::Raw(c)] + rest.0, rest.1)
        }
    }
}

pub open spec fn spec_scan(src: Seq<char>, i: int, in_expr: bool) -> (Seq<Char>, int) {
    if in_expr {
        spec_scan_inside(src, i)
    } else {
        spec_scan_outside(src, i)
    }
}

pub proof fn lemma_scan_bounds(src: Seq<char>, i: int, in_expr: bool)
    requires
        0 <= i <= src.len(),
    ensures
        i <= spec_scan(src, i, in_expr).1 <= src.len(),
    decreases src.len() - i,
{
    if i < src.len() {
        let c = src[i];
        if in_expr {
            if c == '|' {
                if i + 1 < src.len() && (src[i + 1] == '{' || src[i + 1] == '}' || src[i + 1]
                    == '|') {
                    lemma_scan_bounds(src, i + 2, in_expr);
                }
            } else if c != '{' && c != '}' {
                lemma_scan_bounds(src, i + 1, in_expr);
            }
        } else {
            if c == '{' || c == '}' {
                if i + 1 < src.len() && src[i + 1] == c {
                    lemma_scan_bounds(src, i + 2, in_expr);
                }
            } else {
                lemma_scan_bounds(src, i + 1, in_expr);
            }
        }
    }
}

/// One consuming step of a raw scan: if at `cur` the scan consumes one
/// character (covering `steps` source characters), the run gathered so far
/// extended by that character still reconstructs the whole run.
proof fn lemma_scan_step(
    src: Seq<char>,
    i0: int,
    cur: int,
    raw: Seq<Char>,
    consumed: Char,
    steps: int,
    in_expr: bool,
)
    requires
        0 <= i0 <= cur < src.len(),
        spec_scan(src, cur, in_expr).0 == seq![consumed] + spec_scan(
            src,
            cur + steps,
            in_expr,
        ).0,
        spec_scan(src, cur, in_expr).1 == spec_scan(src, cur + steps, in_expr).1,
        spec_scan(src, i0, in_expr) == (
            raw + spec_scan(src, cur, in_expr).0,
            spec_scan(src, cur, in_expr).1,
        ),
    ensures
        spec_scan(src, i0, in_expr) == (
            raw.push(consumed) + spec_scan(src, cur + steps, in_expr).0,
            spec_scan(src, cur + steps, in_expr).1,
        ),
{
    assert(raw + (seq![consumed] + spec_scan(src, cur + steps, in_expr).0) =~= raw.push(consumed)
        + spec_scan(src, cur + steps, in_expr).0);
}

/// Shape of a raw run that begins with one consumed character.
pub proof fn lemma_cons_parts(x: Char, s: Seq<Char>)
    ensures
        (seq![x] + s).len() == 1 + s.len(),
        (seq![x] + s)[0] == x,
        (seq![x] + s).drop_first() =~= s,
        crate::reader::seq_width(seq![x] + s) == x.spec_width() + crate::reader::seq_width(s),
{
    assert((seq![x] + s).drop_first() =~= s);
    assert(crate::reader::seq_width(seq![x] + s) == (seq![x] + s)[0].spec_width()
        + crate::reader::seq_width((seq![x] + s).drop_first()));
}

/// Where a raw scan yields nothing, it stops where it started, on a
/// stopping character (or at the end of the source).
#[verifier::rlimit(100)]
#[verifier::spinoff_prover]
pub proof fn lemma_scan_stop(src: Seq<char>, i0: int, in_expr: bool)
    requires
        0 <= i0 <= src.len(),
        spec_scan(src, i0, in_expr).0.len() == 0,
    ensures
        spec_scan(src, i0, in_expr).1 == i0,
        i0 < src.len() ==> (src[i0] == '{' || src[i0] == '}' || (in_expr && src[i0] == '|')),
{
    reveal_with_fuel(spec_scan_inside, 2);
    reveal_with_fuel(spec_scan_outside, 2);
    if i0 < src.len() {
        let c = src[i0];
        if in_expr {
            if c == '|' {
                if i0 + 1 < src.len() && (src[i0 + 1] == '{' || src[i0 + 1] == '}' || src[i0 + 1]
                    == '|') {
                    let rest = spec_scan_inside(src, i0 + 2);
                    assert(spec_scan_inside(src, i0) == (
                        seq![Char::Escaped(src[i0 + 1])] + rest.0,
                        rest.1,
                    ));
                    lemma_cons_parts(Char::Escaped(src[i0 + 1]), rest.0);
                    assert(spec_scan(src, i0, in_expr).0.len() >= 1);
                    assert(false);
                }
            } else if c != '{' && c != '}' {
                let rest = spec_scan_inside(src, i0 + 1);
                assert(spec_scan_inside(src, i0) == (
                    seq![Char::Raw(src[i0])] + rest.0,
                    rest.1,
                ));
                lemma_cons_parts(Char::Raw(src[i0]), rest.0);
                assert(spec_scan(src, i0, in_expr).0.len() >= 1);
                assert(false);
            }
        } else {
            if c == '{' || c == '}' {
                if i0 + 1 < src.len() && src[i0 + 1] == c {
                    let rest = spec_scan_outside(src, i0 + 2);
                    assert(spec_scan_outside(src, i0) == (
                        seq![Char::Escaped(src[i0])] + rest.0,
                        rest.1,
                    ));
                    lemma_cons_parts(Char::Escaped(src[i0]), rest.0);
                    assert(spec_scan(src, i0, in_expr).0.len() >= 1);
                    assert(false);
                }
            } else {
                let rest = spec_scan_outside(src, i0 + 1);
                assert(spec_scan_outside(src, i0) == (
                    seq![Char::Raw(src[i0])] + rest.0,
                    rest.1,
                ));
                lemma_cons_parts(Char::Raw(src[i0]), rest.0);
                assert(spec_scan(src, i0, in_expr).0.len() >= 1);
                assert(false);
            }
        }
    }
}

/// Byte offsets split at any cursor, so every prefix offset stays within
/// the total byte length.
pub proof fn lemma_offset_step(src: Seq<char>, i: int, j: int)
    requires
        0 <= i <= j <= src.len(),
    ensures
        spec_bytes_len(src.take(j)) == spec_bytes_len(src.take(i)) + spec_bytes_len(
            src.subrange(i, j),
        ),
        spec_bytes_len(src.take(j)) <= spec_bytes_len(src),
    decreases j - i,
{
    crate::chars::lemma_bytes_len_split(src, j);
    assert(src.take(j).take(i) =~= src.take(i));
    assert(src.take(j).skip(i) =~= src.subrange(i, j));
    crate::chars::lemma_bytes_len_split(src.take(j), i);
    crate::chars::lemma_bytes_len_split(src, j);
    assert(spec_bytes_len(src) == spec_bytes_len(src.take(j)) + spec_bytes_len(src.skip(j)));
}

/// The byte width of one or two consumed source characters.
proof fn lemma_pair_bytes(src: Seq<char>, cur: int, steps: int)
    requires
        0 <= cur,
        1 <= steps <= 2,
        cur + steps <= src.len(),
    ensures
        steps == 1 ==> spec_bytes_len(src.subrange(cur, cur + 1))
            == crate::chars::spec_char_byte_len(src[cur]),
        steps == 2 ==> spec_bytes_len(src.subrange(cur, cur + 2))
            == crate::chars::spec_char_byte_len(src[cur]) + crate::chars::spec_char_byte_len(
            src[cur + 1],
        ),
{
    if steps == 1 {
        let single = src.subrange(cur, cur + 1);
        assert(single.drop_first() =~= Seq::<char>::empty());
        assert(spec_bytes_len(single) == crate::chars::spec_char_byte_len(single[0])
            + spec_bytes_len(single.drop_first()));
    } else {
        let pair = src.subrange(cur, cur + 2);
        assert(pair.drop_first() =~= src.subrange(cur + 1, cur + 2));
        assert(pair.drop_first().drop_first() =~= Seq::<char>::empty());
        assert(spec_bytes_len(pair) == crate::chars::spec_char_byte_len(pair[0])
            + spec_bytes_len(pair.drop_first()));
        assert(spec_bytes_len(pair.drop_first()) == crate::chars::spec_char_byte_len(
            pair.drop_first()[0],
        ) + spec_bytes_len(pair.drop_first().drop_first()));
    }
}

/// A raw run that yields characters moves the cursor forward.
pub proof fn lemma_scan_progress(src: Seq<char>, i: int, in_expr: bool)
    requires
        0 <= i <= src.len(),
        spec_scan(src, i, in_expr).0.len() > 0,
    ensures
        i < spec_scan(src, i, in_expr).1 <= src.len(),
{
    lemma_scan_bounds(src, i, in_expr);
    lemma_scan_stop_contra(src, i, in_expr);
}

/// Helper: a scan that stays put yields nothing.
proof fn lemma_scan_stop_contra(src: Seq<char>, i: int, in_expr: bool)
    requires
        0 <= i <= src.len(),
        spec_scan(src, i, in_expr).0.len() > 0,
    ensures
        spec_scan(src, i, in_expr).1 > i,
    decreases src.len() - i,
{
    if i >= src.len() {
        assert(false);
    } else {
        let c = src[i];
        if in_expr {
            if c == '|' {
                if i + 1 < src.len() && (src[i + 1] == '{' || src[i + 1] == '}' || src[i + 1]
                    == '|') {
                    let rest = spec_scan_inside(src, i + 2);
                    assert(spec_scan_inside(src, i) == (
                        seq![Char::Escaped(src[i + 1])] + rest.0,
                        rest.1,
                    ));
                    lemma_scan_bounds(src, i + 2, in_expr);
                } else {
                    assert(false);
                }
            } else if c == '{' || c == '}' {
                assert(false);
            } else {
                let rest = spec_scan_inside(src, i + 1);
                assert(spec_scan_inside(src, i) == (seq![Char::Raw(src[i])] + rest.0, rest.1));
                lemma_scan_bounds(src, i + 1, in_expr);
            }
        } else {
            if c == '{' || c == '}' {
                if i + 1 < src.len() && src[i + 1] == c {
                    let rest = spec_scan_outside(src, i + 2);
                    assert(spec_scan_outside(src, i) == (
                        seq![Char::Escaped(src[i])] + rest.0,
                        rest.1,
                    ));
                    lemma_scan_bounds(src, i + 2, in_expr);
                } else {
                    assert(false);
                }
            } else {
                let rest = spec_scan_outside(src, i + 1);
                assert(spec_scan_outside(src, i) == (seq![Char::Raw(src[i])] + rest.0, rest.1));
                lemma_scan_bounds(src, i + 1, in_expr);
            }
        }
    }
}

/// The characters a raw run yields cover exactly the source bytes the scan
/// consumed.
#[verifier::rlimit(60)]
#[verifier::spinoff_prover]
pub proof fn lemma_scan_width(src: Seq<char>, i: int, in_expr: bool)
    requires
        0 <= i <= src.len(),
    ensures
        crate::reader::seq_width(spec_scan(src, i, in_expr).0) == spec_bytes_len(
            src.subrange(i, spec_scan(src, i, in_expr).1),
        ),
    decreases src.len() - i,
{
    lemma_scan_bounds(src, i, in_expr);
    if i >= src.len() {
        assert(src.subrange(i, i) =~= Seq::<char>::empty());
    } else {
        let c = src[i];
        let pair_escape: bool = if in_expr {
            c == '|' && i + 1 < src.len() && (src[i + 1] == '{' || src[i + 1] == '}' || src[i
                + 1] == '|')
        } else {
            (c == '{' || c == '}') && i + 1 < src.len() && src[i + 1] == c
        };
        let single: bool = if in_expr {
            c != '|' && c != '{' && c != '}'
        } else {
            c != '{' && c != '}'
        };
        if pair_escape {
            let rest = spec_scan(src, i + 2, in_expr);
            let consumed = if in_expr {
                Char::Escaped(src[i + 1])
            } else {
                Char::Escaped(src[i])
            };
            assert(spec_scan(src, i, in_expr) == (seq![consumed] + rest.0, rest.1));
            lemma_cons_parts(consumed, rest.0);
            lemma_scan_width(src, i + 2, in_expr);
            lemma_scan_bounds(src, i + 2, in_expr);
            let run = spec_scan(src, i, in_expr).0;
            assert(run == seq![consumed] + rest.0);
            assert(crate::reader::seq_width(run) == consumed.spec_width()
                + crate::reader::seq_width(rest.0));
            let j = rest.1;
            let covered = src.subrange(i, j);
            assert(covered.drop_first() =~= src.subrange(i + 1, j));
            assert(covered.drop_first().drop_first() =~= src.subrange(i + 2, j));
            assert(spec_bytes_len(covered) == spec_char_byte_len(src[i]) + spec_bytes_len(
                covered.drop_first(),
            ));
            assert(spec_bytes_len(covered.drop_first()) == spec_char_byte_len(src[i + 1])
                + spec_bytes_len(covered.drop_first().drop_first()));
            assert(spec_char_byte_len(src[i]) == 1);
            assert(spec_char_byte_len(src[i + 1]) == 1);
        } else if single {
            let rest = spec_scan(src, i + 1, in_expr);
            assert(spec_scan(src, i, in_expr) == (seq![Char::Raw(src[i])] + rest.0, rest.1));
            lemma_cons_parts(Char::Raw(src[i]), rest.0);
            lemma_scan_width(src, i + 1, in_expr);
            lemma_scan_bounds(src, i + 1, in_expr);
            let run = spec_scan(src, i, in_expr).0;
            assert(run == seq![Char::Raw(src[i])] + rest.0);
            assert(crate::reader::seq_width(run) == Char::Raw(src[i]).spec_width()
                + crate::reader::seq_width(rest.0));
            let j = rest.1;
            let covered = src.subrange(i, j);
            assert(covered.drop_first() =~= src.subrange(i + 1, j));
            assert(spec_bytes_len(covered) == spec_char_byte_len(src[i]) + spec_bytes_len(
                covered.drop_first(),
            ));
        } else {
            assert(spec_scan(src, i, in_expr).0 =~= Seq::<Char>::empty());
            assert(src.subrange(i, i) =~= Seq::<char>::empty());
            lemma_scan_stop(src, i, in_expr);
        }
    }
}

/// The next token of the stream, with the cursor and mode after it, or
/// `None` at the end of the source: the raw run when it is non-empty,
/// otherwise the single stopping character as its own token.
pub open spec fn spec_next_lexeme(src: Seq<char>, i: int, in_expr: bool) -> Option<
    (SpecLexeme, int, bool),
> {
    let scanned = spec_scan(src, i, in_expr);
    if scanned.0.len() > 0 {
        Some((SpecLexeme::Raw(scanned.0), scanned.1, in_expr))
    } else if i >= src.len() {
        None
    } else if src[i] == '{' {
        Some((SpecLexeme::ExprStart, i + 1, true))
    } else if src[i] == '}' {
        Some((SpecLexeme::ExprEnd, i + 1, false))
    } else {
        Some((SpecLexeme::Pipe, i + 1, in_expr))
    }
}

/// The model of the token `Lexer::next` hands out for the same state.
pub open spec fn spec_next_token(src: Seq<char>, i: int, in_expr: bool) -> Option<
    (SpecToken, int, bool),
> {
    match spec_next_lexeme(src, i, in_expr) {
        Option::None => None,
        Option::Some((lx, j, m)) => {
            let typ = match lx {
                SpecLexeme::Raw(cs) => SpecTokenType::Raw(seq_values(cs)),
                SpecLexeme::ExprStart => SpecTokenType::ExprStart,
                SpecLexeme::ExprEnd => SpecTokenType::ExprEnd,
                SpecLexeme::Pipe => SpecTokenType::Pipe,
            };
            Some((SpecToken { typ, position: spec_bytes_len(src.take(i)) as int }, j, m))
        },
    }
}

/// The lexer: a cursor over the source characters, with the current mode
/// and the byte offset of the cursor.
pub struct Lexer {
    chars: Vec<char>,
    index: usize,
    offset: usize,
    in_expression: bool,
}

impl Lexer {
    /// The source characters.
    pub closed spec fn spec_source(self) -> Seq<char> {
        self.chars@
    }

    /// How many source characters have been consumed.
    pub closed spec fn spec_index(self) -> int {
        self.index as int
    }

    /// Whether the cursor stands inside a `{...}` expression.
    pub closed spec fn spec_in_expression(self) -> bool {
        self.in_expression
    }

    /// A lexer is well formed when its cursor is inside the source and its
    /// byte offset belongs to its cursor.
    pub closed spec fn wf(self) -> bool {
        &&& self.index <= self.chars@.len()
        &&& self.offset == spec_bytes_len(self.chars@.take(self.index as int))
        &&& spec_bytes_len(self.chars@) <= usize::MAX
    }

    /// A lexer over `string`, at its start, outside any expression.
    pub fn new(string: &str) -> (lexer: Lexer)
        ensures
            lexer.wf(),
            lexer.spec_source() == string@,
            lexer.spec_index() == 0,
            !lexer.spec_in_expression(),
    {
        let chars = chars_of(string);
        proof {
            assert(chars@.take(0) =~= Seq::<char>::empty());
        }
        Lexer { chars, index: 0, offset: 0, in_expression: false }
    }

    /// Byte offset of the next unread source character.
    pub fn position(&self) -> (p: usize)
        requires
            self.wf(),
        ensures
            p == spec_bytes_len(self.spec_source().take(self.spec_index())),
    {
        self.offset
    }

    /// The next positioned token, or `None` at the end of the source.
    pub fn next_lexeme(&mut self) -> (r: Option<(Lexeme, usize)>)
        requires
            old(self).wf(),
        ensures
            final(self).wf(),
            final(self).spec_source() == old(self).spec_source(),
            0 <= old(self).spec_index() <= old(self).spec_source().len(),
            0 <= final(self).spec_index() <= old(self).spec_source().len(),
            spec_bytes_len(old(self).spec_source()) <= usize::MAX,
            r matches Some((lx, pos)) ==> pos < spec_bytes_len(old(self).spec_source()),
            ({
                let src = old(self).spec_source();
                let i = old(self).spec_index();
                let m = old(self).spec_in_expression();
                match spec_next_lexeme(src, i, m) {
                    Option::None => {
                        &&& r is None
                        &&& final(self).spec_index() == i
                        &&& final(self).spec_in_expression() == m
                    },
                    Option::Some((slx, j, m2)) => {
                        &&& r matches Some((lx, pos)) && lx@ == slx && pos == spec_bytes_len(
                            src.take(i),
                        )
                        &&& final(self).spec_index() == j
                        &&& final(self).spec_in_expression() == m2
                    },
                }
            }),
    {
        let ghost src = self.chars@;
        let ghost i0 = self.index as int;
        let ghost mode = self.in_expression;
        let position = self.offset;
        let mut raw: Vec<Char> = Vec::new();
        proof {
            lemma_scan_bounds(src, i0, mode);
        }
        loop
            invariant
                self.wf(),
                self.in_expression == mode,
                self.chars@ == src,
                0 <= i0 <= self.spec_index() <= src.len(),
                spec_scan(src, i0, mode) == (
                    raw@ + spec_scan(src, self.spec_index(), mode).0,
                    spec_scan(src, self.spec_index(), mode).1,
                ),
            ensures
                self.wf(),
                self.in_expression == mode,
                self.chars@ == src,
                raw@ == spec_scan(src, i0, mode).0,
                self.spec_index() == spec_scan(src, i0, mode).1,
            decreases src.len() - self.spec_index(),
        {
            let cur = self.index;
            if cur >= self.chars.len() {
                proof {
                    assert(spec_scan(src, cur as int, mode).0 =~= Seq::<Char>::empty());
                    assert(raw@ + spec_scan(src, cur as int, mode).0 =~= raw@);
                }
                break ;
            }
            let c = self.chars[cur];
            let consumed: Char;
            let steps: usize;
            if self.in_expression {
                if c == '|' {
                    let escaped = if cur + 1 < self.chars.len() {
                        let d = self.chars[cur + 1];
                        d == '{' || d == '}' || d == '|'
                    } else {
                        false
                    };
                    if escaped {
                        consumed = Char::Escaped(self.chars[cur + 1]);
                        steps = 2;
                    } else {
                        proof {
                            assert(spec_scan(src, cur as int, mode).0 =~= Seq::<Char>::empty());
                            assert(raw@ + spec_scan(src, cur as int, mode).0 =~= raw@);
                        }
                        break ;
                    }
                } else if c == '{' || c == '}' {
                    proof {
                        assert(spec_scan(src, cur as int, mode).0 =~= Seq::<Char>::empty());
                        assert(raw@ + spec_scan(src, cur as int, mode).0 =~= raw@);
                    }
                    break ;
                } else {
                    consumed = Char::Raw(c);
                    steps = 1;
                }
            } else {
                if c == '{' || c == '}' {
                    if cur + 1 < self.chars.len() && self.chars[cur + 1] == c {
                        consumed = Char::Escaped(c);
                        steps = 2;
                    } else {
                        proof {
                            assert(spec_scan(src, cur as int, mode).0 =~= Seq::<Char>::empty());
                            assert(raw@ + spec_scan(src, cur as int, mode).0 =~= raw@);
                        }
                        break ;
                    }
                } else {
                    consumed = Char::Raw(c);
                    steps = 1;
                }
            }
            proof {
                lemma_scan_step(src, i0, cur as int, raw@, consumed, steps as int, mode);
                lemma_offset_step(src, cur as int, cur + steps);
                lemma_offset_step(src, 0, cur + steps);
                lemma_pair_bytes(src, cur as int, steps as int);
            }
            let width = if steps == 2 {
                char_byte_len(c) + char_byte_len(self.chars[cur + 1])
            } else {
                char_byte_len(c)
            };
            raw.push(consumed);
            self.index = cur + steps;
            self.offset = self.offset + width;
        }
        if raw.len() > 0 {
            proof {
                if i0 >= src.len() {
                    assert(spec_scan(src, i0, mode) == (Seq::<Char>::empty(), i0));
                    assert(false);
                }
                crate::chars::lemma_bytes_len_strict(src, i0);
            }
            return Some((Lexeme::Raw(raw), position));
        }
        proof {
            lemma_scan_stop(src, i0, mode);
        }
        if self.index >= self.chars.len() {
            return None;
        }
        proof {
            lemma_bytes_len_push(src.take(i0), src[i0]);
            assert(src.take(i0 + 1) =~= src.take(i0).push(src[i0]));
            crate::chars::lemma_bytes_len_split(src, i0 + 1);
        }
        proof {
            crate::chars::lemma_bytes_len_strict(src, i0);
        }
        let c = self.chars[self.index];
        self.index = self.index + 1;
        self.offset = self.offset + 1;
        if c == '{' {
            self.in_expression = true;
            Some((Lexeme::ExprStart, position))
        } else if c == '}' {
            self.in_expression = false;
            Some((Lexeme::ExprEnd, position))
        } else {
            Some((Lexeme::Pipe, position))
        }
    }

    /// The next token, or `None` at the end of the source.
    pub fn next(&mut self) -> (t: Option<Token>)
        requires
            old(self).wf(),
        ensures
            final(self).wf(),
            final(self).spec_source() == old(self).spec_source(),
            ({
                let src = old(self).spec_source();
                let i = old(self).spec_index();
                let m = old(self).spec_in_expression();
                match spec_next_token(src, i, m) {
                    Option::None => {
                        &&& t is None
                        &&& final(self).spec_index() == i
                        &&& final(self).spec_in_expression() == m
                    },
                    Option::Some((st, j, m2)) => {
                        &&& t matches Some(tok) && tok@ == st
                        &&& final(self).spec_index() == j
                        &&& final(self).spec_in_expression() == m2
                    },
                }
            }),
    {
        match self.next_lexeme() {
            Some((Lexeme::Raw(cs), position)) => Some(
                Token { typ: TokenType::Raw(join_values(&cs)), position },
            ),
            Some((Lexeme::ExprStart, position)) => Some(
                Token { typ: TokenType::ExprStart, position },
            ),
            Some((Lexeme::ExprEnd, position)) => Some(
                Token { typ: TokenType::ExprEnd, position },
            ),
            Some((Lexeme::Pipe, position)) => Some(Token { typ: TokenType::Pipe, position }),
            None => None,
        }
    }
}

} // verus!
