//! The pattern: an ordered sequence of items, each a constant or a
//! pipe-separated filter chain, every one carrying the byte range of the
//! source text it came from.  A pattern is parsed once and immutable;
//! evaluation threads the input value left to right through each
//! expression's filters, concatenating constants verbatim.

use vstd::prelude::*;
use vstd::string::StringExecFns;

use crate::chars::spec_bytes_len;
use crate::eval;
use crate::eval::SpecContext;
use crate::filter::{spec_filter_err, spec_filter_ok, spec_parse_filter, Filter, SpecFilter};
use crate::lexer::{
    lemma_scan_progress, lemma_scan_width, spec_next_lexeme, Lexeme, Lexer, SpecLexeme,
};
use crate::parse::{Error, ErrorKind, SpecError, SpecErrorKind};
use crate::reader::{seq_values, seq_width, Char, Reader};

verus! {

/// A parsed node together with the half-open byte range `[start, end)` of
/// the source text it stands for.
#[derive(Debug, PartialEq)]
pub struct Parsed<T> {
    pub value: T,
    pub start: usize,
    pub end: usize,
}

/// One item of a pattern: literal text, or a chain of filters.
#[derive(Debug, PartialEq)]
pub enum Item {
    Constant(String),
    Expression(Vec<Parsed<Filter>>),
}

/// A parsed pattern: the original source and its items.  The byte ranges
/// of the items are non-overlapping and, in order, cover the source
/// exactly.
#[derive(Debug, PartialEq)]
pub struct Pattern {
    pub source: String,
    pub items: Vec<Parsed<Item>>,
}

/// Mathematical model of a positioned filter.
pub struct SpecParsedFilter {
    pub value: SpecFilter,
    pub start: int,
    pub end: int,
}

/// Mathematical model of an item.
pub enum SpecItem {
    Constant(Seq<char>),
    Expression(Seq<SpecParsedFilter>),
}

/// Mathematical model of a positioned item.
pub struct SpecParsedItem {
    pub value: SpecItem,
    pub start: int,
    pub end: int,
}

pub open spec fn parsed_filter_view(p: Parsed<Filter>) -> SpecParsedFilter {
    SpecParsedFilter { value: p.value@, start: p.start as int, end: p.end as int }
}

pub open spec fn filters_view(s: Seq<Parsed<Filter>>) -> Seq<SpecParsedFilter> {
    Seq::new(s.len(), |i: int| parsed_filter_view(s[i]))
}

pub open spec fn item_view(item: Item) -> SpecItem {
    match item {
        Item::Constant(text) => SpecItem::Constant(text@),
        Item::Expression(filters) => SpecItem::Expression(filters_view(filters@)),
    }
}

pub open spec fn parsed_item_view(p: Parsed<Item>) -> SpecParsedItem {
    SpecParsedItem { value: item_view(p.value), start: p.start as int, end: p.end as int }
}

pub open spec fn items_view(s: Seq<Parsed<Item>>) -> Seq<SpecParsedItem> {
    Seq::new(s.len(), |i: int| parsed_item_view(s[i]))
}

impl Pattern {
    /// The items of this pattern, as their models.
    pub open spec fn spec_items(self) -> Seq<SpecParsedItem> {
        items_view(self.items@)
    }
}

/// What parsing the filter chain of one expression yields, from cursor `i`
/// (just after the `{` whose byte offset is `start_pos`): the positioned
/// filters and the cursor after the closing `}`.  `expect_filter` is true
/// right after `{` or `|`, where a segment must follow; an expression may
/// only be empty directly after its `{`.
pub open spec fn spec_parse_filters(
    src: Seq<char>,
    i: int,
    start_pos: int,
    first: bool,
) -> Result<(Seq<SpecParsedFilter>, int), SpecError>
    decreases src.len() - i, 1int,
    when 0 <= i <= src.len()
    via spec_parse_filters_decreases
{
    match spec_next_lexeme(src, i, true) {
        Option::None => Err(
            SpecError {
                kind: SpecErrorKind::UnmatchedExprStart,
                start: start_pos,
                end: start_pos + 1,
            },
        ),
        Option::Some((lx, j, _)) => {
            let pos_i = spec_bytes_len(src.take(i)) as int;
            match lx {
                SpecLexeme::Raw(cs) => {
                    match spec_parse_filter(cs, 0, pos_i) {
                        Ok(f) => {
                            let pf = SpecParsedFilter {
                                value: f,
                                start: pos_i,
                                end: pos_i + seq_width(cs),
                            };
                            match spec_parse_filters_sep(src, j, start_pos) {
                                Ok((rest, k)) => Ok((seq![pf] + rest, k)),
                                Err(e) => Err(e),
                            }
                        },
                        Err(e) => Err(e),
                    }
                },
                SpecLexeme::ExprEnd => {
                    if first {
                        Ok((Seq::empty(), j))
                    } else {
                        Err(
                            SpecError {
                                kind: SpecErrorKind::ExpectedFilter,
                                start: pos_i,
                                end: pos_i,
                            },
                        )
                    }
                },
                SpecLexeme::Pipe => Err(
                    SpecError { kind: SpecErrorKind::ExpectedFilter, start: pos_i, end: pos_i },
                ),
                SpecLexeme::ExprStart => Err(
                    SpecError {
                        kind: SpecErrorKind::UnmatchedExprStart,
                        start: pos_i,
                        end: pos_i + 1,
                    },
                ),
            }
        },
    }
}

/// After a complete filter: a `|` continues the chain, a `}` closes the
/// expression.
pub open spec fn spec_parse_filters_sep(src: Seq<char>, i: int, start_pos: int) -> Result<
    (Seq<SpecParsedFilter>, int),
    SpecError,
>
    decreases src.len() - i, 0int,
    when 0 <= i <= src.len()
    via spec_parse_filters_sep_decreases
{
    match spec_next_lexeme(src, i, true) {
        Option::None => Err(
            SpecError {
                kind: SpecErrorKind::UnmatchedExprStart,
                start: start_pos,
                end: start_pos + 1,
            },
        ),
        Option::Some((lx, j, _)) => {
            let pos_i = spec_bytes_len(src.take(i)) as int;
            match lx {
                SpecLexeme::ExprEnd => Ok((Seq::empty(), j)),
                SpecLexeme::Pipe => spec_parse_filters(src, j, start_pos, false),
                SpecLexeme::Raw(cs) => Err(
                    SpecError { kind: SpecErrorKind::ExpectedFilter, start: pos_i, end: pos_i },
                ),
                SpecLexeme::ExprStart => Err(
                    SpecError {
                        kind: SpecErrorKind::UnmatchedExprStart,
                        start: pos_i,
                        end: pos_i + 1,
                    },
                ),
            }
        },
    }
}

#[via_fn]
proof fn spec_parse_filters_decreases(src: Seq<char>, i: int, start_pos: int, first: bool) {
    lemma_next_lexeme_progress(src, i, true);
}

#[via_fn]
proof fn spec_parse_filters_sep_decreases(src: Seq<char>, i: int, start_pos: int) {
    lemma_next_lexeme_progress(src, i, true);
}

/// A produced token always moves the cursor forward.
pub proof fn lemma_next_lexeme_progress(src: Seq<char>, i: int, in_expr: bool)
    requires
        0 <= i <= src.len(),
    ensures
        spec_next_lexeme(src, i, in_expr) matches Some((lx, j, m)) ==> i < j <= src.len(),
{
    if crate::lexer::spec_scan(src, i, in_expr).0.len() > 0 {
        lemma_scan_progress(src, i, in_expr);
    }
}

/// The cursor an expression's filter chain ends at stays inside the source.
pub proof fn lemma_parse_filters_bounds(src: Seq<char>, i: int, start_pos: int, first: bool)
    requires
        0 <= i <= src.len(),
    ensures
        spec_parse_filters(src, i, start_pos, first) matches Ok((fs, k)) ==> i < k <= src.len(),
        spec_parse_filters_sep(src, i, start_pos) matches Ok((fs, k)) ==> i < k <= src.len(),
    decreases src.len() - i, 2int,
{
    lemma_next_lexeme_progress(src, i, true);
    match spec_next_lexeme(src, i, true) {
        Option::None => {},
        Option::Some((lx, j, _)) => {
            match lx {
                SpecLexeme::Raw(cs) => {
                    lemma_parse_filters_bounds(src, j, start_pos, false);
                },
                SpecLexeme::Pipe => {
                    lemma_parse_filters_bounds(src, j, start_pos, false);
                },
                _ => {},
            }
        },
    }
}

/// What parsing a whole pattern source yields from cursor `i` outside any
/// expression: a raw token becomes a constant item, a `{` opens a filter
/// chain closed by its `}`, and a lone `}` is unmatched.  Every item
/// carries the byte range of the source text it came from.
pub open spec fn spec_parse_items(src: Seq<char>, i: int) -> Result<
    Seq<SpecParsedItem>,
    SpecError,
>
    decreases src.len() - i,
    when 0 <= i <= src.len()
    via spec_parse_items_decreases
{
    match spec_next_lexeme(src, i, false) {
        Option::None => Ok(Seq::empty()),
        Option::Some((lx, j, _)) => {
            let pos_i = spec_bytes_len(src.take(i)) as int;
            match lx {
                SpecLexeme::Raw(cs) => {
                    let item = SpecParsedItem {
                        value: SpecItem::Constant(seq_values(cs)),
                        start: pos_i,
                        end: spec_bytes_len(src.take(j)) as int,
                    };
                    match spec_parse_items(src, j) {
                        Ok(rest) => Ok(seq![item] + rest),
                        Err(e) => Err(e),
                    }
                },
                SpecLexeme::ExprStart => {
                    match spec_parse_filters(src, j, pos_i, true) {
                        Ok((filters, k)) => {
                            let item = SpecParsedItem {
                                value: SpecItem::Expression(filters),
                                start: pos_i,
                                end: spec_bytes_len(src.take(k)) as int,
                            };
                            match spec_parse_items(src, k) {
                                Ok(rest) => Ok(seq![item] + rest),
                                Err(e) => Err(e),
                            }
                        },
                        Err(e) => Err(e),
                    }
                },
                SpecLexeme::ExprEnd => Err(
                    SpecError {
                        kind: SpecErrorKind::UnmatchedExprEnd,
                        start: pos_i,
                        end: pos_i + 1,
                    },
                ),
                // A pipe is ordinary text outside an expression; the scan
                // never stops on one here.
                SpecLexeme::Pipe => Err(
                    SpecError {
                        kind: SpecErrorKind::UnmatchedExprEnd,
                        start: pos_i,
                        end: pos_i + 1,
                    },
                ),
            }
        },
    }
}

#[via_fn]
proof fn spec_parse_items_decreases(src: Seq<char>, i: int) {
    lemma_next_lexeme_progress(src, i, false);
    match spec_next_lexeme(src, i, false) {
        Option::Some((lx, j, _)) => {
            match lx {
                SpecLexeme::ExprStart => {
                    lemma_parse_filters_bounds(src, j, spec_bytes_len(src.take(i)) as int, true);
                },
                _ => {},
            }
        },
        Option::None => {},
    }
}

/// Shape of an item list that begins with one parsed item.
proof fn lemma_item_cons(x: SpecParsedItem, s: Seq<SpecParsedItem>)
    ensures
        (seq![x] + s).len() == 1 + s.len(),
        (seq![x] + s)[0] == x,
        (seq![x] + s).drop_first() =~= s,
{
    assert((seq![x] + s).drop_first() =~= s);
}

/// Shape of a filter list that begins with one parsed filter.
proof fn lemma_filter_cons(x: SpecParsedFilter, s: Seq<SpecParsedFilter>)
    ensures
        (seq![x] + s).len() == 1 + s.len(),
        (seq![x] + s)[0] == x,
        (seq![x] + s).drop_first() =~= s,
{
    assert((seq![x] + s).drop_first() =~= s);
}

/// Parses the filter chain of one expression; mirrors
/// `spec_parse_filters` (`first`) and `spec_parse_filters_sep` (after a
/// filter).
fn parse_filters(lexer: &mut Lexer, start_pos: usize, first: bool) -> (r: Result<
    Vec<Parsed<Filter>>,
    Error,
>)
    requires
        old(lexer).wf(),
        old(lexer).spec_in_expression(),
        start_pos < usize::MAX,
    ensures
        final(lexer).wf(),
        final(lexer).spec_source() == old(lexer).spec_source(),
        ({
            let src = old(lexer).spec_source();
            let i = old(lexer).spec_index();
            match r {
                Ok(filters) => {
                    &&& spec_parse_filters(src, i, start_pos as int, first) == Ok::<
                        _,
                        SpecError,
                    >((filters_view(filters@), final(lexer).spec_index()))
                    &&& !final(lexer).spec_in_expression()
                },
                Err(e) => spec_parse_filters(src, i, start_pos as int, first) == Err::<
                    (Seq<SpecParsedFilter>, int),
                    _,
                >(e@),
            }
        }),
    decreases old(lexer).spec_source().len() - old(lexer).spec_index(), 1int,
{
    let ghost src = lexer.spec_source();
    let ghost i0 = lexer.spec_index();
    let next = lexer.next_lexeme();
    proof {
        lemma_next_lexeme_progress(src, i0, true);
    }
    match next {
        None => Err(
            Error { kind: ErrorKind::UnmatchedExprStart, start: start_pos, end: start_pos + 1 },
        ),
        Some((Lexeme::Raw(cs), pos_i)) => {
            proof {
                lemma_scan_width(src, i0, true);
                crate::lexer::lemma_offset_step(src, i0, lexer.spec_index());
            }
            let width = crate::reader::width_of(&cs);
            let mut reader = Reader::from_segment(cs, pos_i);
            match Filter::parse(&mut reader) {
                Ok(f) => {
                    let pf = Parsed { value: f, start: pos_i, end: pos_i + width };
                    match parse_filters_sep(lexer, start_pos) {
                        Ok(mut rest) => {
                            let ghost old_rest = rest@;
                            rest.insert(0, pf);
                            proof {
                                assert(rest@.drop_first() =~= old_rest);
                                lemma_filter_cons(parsed_filter_view(pf), filters_view(old_rest));
                                assert(filters_view(rest@) =~= seq![parsed_filter_view(pf)]
                                    + filters_view(old_rest));
                            }
                            Ok(rest)
                        },
                        Err(e) => Err(e),
                    }
                },
                Err(e) => Err(e),
            }
        },
        Some((Lexeme::ExprEnd, pos_i)) => {
            if first {
                proof {
                    assert(filters_view(Seq::<Parsed<Filter>>::empty()) =~= Seq::<
                        SpecParsedFilter,
                    >::empty());
                }
                Ok(Vec::new())
            } else {
                Err(Error { kind: ErrorKind::ExpectedFilter, start: pos_i, end: pos_i })
            }
        },
        Some((Lexeme::Pipe, pos_i)) => Err(
            Error { kind: ErrorKind::ExpectedFilter, start: pos_i, end: pos_i },
        ),
        Some((Lexeme::ExprStart, pos_i)) => Err(
            Error { kind: ErrorKind::UnmatchedExprStart, start: pos_i, end: pos_i + 1 },
        ),
    }
}

/// After a complete filter inside an expression.
fn parse_filters_sep(lexer: &mut Lexer, start_pos: usize) -> (r: Result<
    Vec<Parsed<Filter>>,
    Error,
>)
    requires
        old(lexer).wf(),
        old(lexer).spec_in_expression(),
        start_pos < usize::MAX,
    ensures
        final(lexer).wf(),
        final(lexer).spec_source() == old(lexer).spec_source(),
        ({
            let src = old(lexer).spec_source();
            let i = old(lexer).spec_index();
            match r {
                Ok(filters) => {
                    &&& spec_parse_filters_sep(src, i, start_pos as int) == Ok::<
                        _,
                        SpecError,
                    >((filters_view(filters@), final(lexer).spec_index()))
                    &&& !final(lexer).spec_in_expression()
                },
                Err(e) => spec_parse_filters_sep(src, i, start_pos as int) == Err::<
                    (Seq<SpecParsedFilter>, int),
                    _,
                >(e@),
            }
        }),
    decreases old(lexer).spec_source().len() - old(lexer).spec_index(), 0int,
{
    let ghost src = lexer.spec_source();
    let ghost i0 = lexer.spec_index();
    let next = lexer.next_lexeme();
    proof {
        lemma_next_lexeme_progress(src, i0, true);
    }
    match next {
        None => Err(
            Error { kind: ErrorKind::UnmatchedExprStart, start: start_pos, end: start_pos + 1 },
        ),
        Some((Lexeme::ExprEnd, pos_i)) => {
            proof {
                assert(filters_view(Seq::<Parsed<Filter>>::empty()) =~= Seq::<
                    SpecParsedFilter,
                >::empty());
            }
            Ok(Vec::new())
        },
        Some((Lexeme::Pipe, pos_i)) => parse_filters(lexer, start_pos, false),
        Some((Lexeme::Raw(cs), pos_i)) => Err(
            Error { kind: ErrorKind::ExpectedFilter, start: pos_i, end: pos_i },
        ),
        Some((Lexeme::ExprStart, pos_i)) => Err(
            Error { kind: ErrorKind::UnmatchedExprStart, start: pos_i, end: pos_i + 1 },
        ),
    }
}

/// Parses the item list of a whole pattern; mirrors `spec_parse_items`.
fn parse_items(lexer: &mut Lexer) -> (r: Result<Vec<Parsed<Item>>, Error>)
    requires
        old(lexer).wf(),
        !old(lexer).spec_in_expression(),
    ensures
        ({
            let src = old(lexer).spec_source();
            let i = old(lexer).spec_index();
            match r {
                Ok(items) => spec_parse_items(src, i) == Ok::<_, SpecError>(items_view(items@)),
                Err(e) => spec_parse_items(src, i) == Err::<Seq<SpecParsedItem>, _>(e@),
            }
        }),
    decreases old(lexer).spec_source().len() - old(lexer).spec_index(),
{
    let ghost src = lexer.spec_source();
    let ghost i0 = lexer.spec_index();
    let next = lexer.next_lexeme();
    proof {
        lemma_next_lexeme_progress(src, i0, false);
    }
    match next {
        None => {
            proof {
                assert(items_view(Seq::<Parsed<Item>>::empty()) =~= Seq::<
                    SpecParsedItem,
                >::empty());
            }
            Ok(Vec::new())
        },
        Some((Lexeme::Raw(cs), pos_i)) => {
            let end = lexer.position();
            let item = Parsed {
                value: Item::Constant(crate::reader::join_values(&cs)),
                start: pos_i,
                end,
            };
            match parse_items(lexer) {
                Ok(mut rest) => {
                    let ghost old_rest = rest@;
                    rest.insert(0, item);
                    proof {
                        assert(rest@.drop_first() =~= old_rest);
                        lemma_item_cons(parsed_item_view(item), items_view(old_rest));
                        assert(items_view(rest@) =~= seq![parsed_item_view(item)] + items_view(
                            old_rest,
                        ));
                    }
                    Ok(rest)
                },
                Err(e) => Err(e),
            }
        },
        Some((Lexeme::ExprStart, pos_i)) => {
            proof {
                lemma_parse_filters_bounds(src, lexer.spec_index(), pos_i as int, true);
            }
            match parse_filters(lexer, pos_i, true) {
                Ok(filters) => {
                    let end = lexer.position();
                    let item = Parsed {
                        value: Item::Expression(filters),
                        start: pos_i,
                        end,
                    };
                    match parse_items(lexer) {
                        Ok(mut rest) => {
                            let ghost old_rest = rest@;
                            rest.insert(0, item);
                            proof {
                                assert(rest@.drop_first() =~= old_rest);
                                lemma_item_cons(parsed_item_view(item), items_view(old_rest));
                                assert(items_view(rest@) =~= seq![parsed_item_view(item)]
                                    + items_view(old_rest));
                            }
                            Ok(rest)
                        },
                        Err(e) => Err(e),
                    }
                },
                Err(e) => Err(e),
            }
        },
        Some((Lexeme::ExprEnd, pos_i)) => Err(
            Error { kind: ErrorKind::UnmatchedExprEnd, start: pos_i, end: pos_i + 1 },
        ),
        Some((Lexeme::Pipe, pos_i)) => Err(
            Error { kind: ErrorKind::UnmatchedExprEnd, start: pos_i, end: pos_i + 1 },
        ),
    }
}

impl Pattern {
    /// Parses a pattern source into its items, or reports the first
    /// problem with its exact byte range.
    pub fn parse(source: &str) -> (r: Result<Pattern, Error>)
        ensures
            match r {
                Ok(p) => spec_parse_items(source@, 0) == Ok::<_, SpecError>(p.spec_items())
                    && p.source@ == source@,
                Err(e) => spec_parse_items(source@, 0) == Err::<Seq<SpecParsedItem>, _>(e@),
            },
    {
        let mut lexer = Lexer::new(source);
        match parse_items(&mut lexer) {
            Ok(items) => Ok(Pattern { source: source.to_owned(), items }),
            Err(e) => Err(e),
        }
    }

    /// A pattern built directly from items, with an empty source.
    pub fn from_items(items: Vec<Parsed<Item>>) -> (p: Pattern)
        ensures
            p.spec_items() == items_view(items@),
    {
        Pattern { source: String::new(), items }
    }
}

} // verus!

verus! {

/// An expression's final value, wrapped in the configured quote character
/// when one is set; constants are never wrapped.
pub open spec fn spec_quoted(v: Seq<char>, quotes: Option<char>) -> Seq<char> {
    match quotes {
        Option::Some(q) => seq![q] + v + seq![q],
        Option::None => v,
    }
}

/// How evaluating a filter chain may relate its starting value to its
/// outcome: the empty chain returns the value unchanged; otherwise the
/// first filter either fails — and the error carries the original input,
/// the filter and its byte range — or succeeds with some value the rest of
/// the chain relates to the outcome.  (A relation, not a function: a UUID
/// filter may return any well-formed fresh value.)
pub open spec fn spec_chain_rel(
    filters: Seq<SpecParsedFilter>,
    v: Seq<char>,
    ctx: SpecContext,
    input: Seq<char>,
    out: Result<Seq<char>, eval::SpecEvalError>,
) -> bool
    decreases filters.len(),
{
    if filters.len() == 0 {
        out == Ok::<Seq<char>, eval::SpecEvalError>(v)
    } else {
        let f = filters[0];
        match out {
            Ok(_) => exists|v2: Seq<char>|
                #[trigger] spec_filter_ok(f.value, v, ctx, v2) && spec_chain_rel(
                    filters.drop_first(),
                    v2,
                    ctx,
                    input,
                    out,
                ),
            Err(e) => (spec_filter_err(f.value, v, ctx, e.kind) && e.value == input && e.cause
                == f.value && e.start == f.start && e.end == f.end) || exists|v2: Seq<char>|
                #[trigger] spec_filter_ok(f.value, v, ctx, v2) && spec_chain_rel(
                    filters.drop_first(),
                    v2,
                    ctx,
                    input,
                    out,
                ),
        }
    }
}

/// The chain succeeds with value `w`.
pub open spec fn spec_chain_ok(
    filters: Seq<SpecParsedFilter>,
    v: Seq<char>,
    ctx: SpecContext,
    input: Seq<char>,
    w: Seq<char>,
) -> bool {
    spec_chain_rel(filters, v, ctx, input, Ok(w))
}

/// How evaluating an item list may relate the input to the outcome:
/// constants concatenate verbatim; each expression starts from the
/// original input, runs its chain, and its (possibly quoted) value is
/// concatenated; the first failing filter aborts the whole evaluation.
pub open spec fn spec_eval_rel(
    items: Seq<SpecParsedItem>,
    input: Seq<char>,
    ctx: SpecContext,
    out: Result<Seq<char>, eval::SpecEvalError>,
) -> bool
    decreases items.len(), 0int,
{
    if items.len() == 0 {
        out == Ok::<Seq<char>, eval::SpecEvalError>(Seq::<char>::empty())
    } else {
        match items[0].value {
            SpecItem::Constant(text) => match out {
                Ok(o) => o.len() >= text.len() && o.take(text.len() as int) == text
                    && spec_eval_rel(
                    items.drop_first(),
                    input,
                    ctx,
                    Ok(o.skip(text.len() as int)),
                ),
                Err(_) => spec_eval_rel(items.drop_first(), input, ctx, out),
            },
            SpecItem::Expression(filters) => match out {
                Ok(o) => spec_expr_ok(filters, items.drop_first(), input, ctx, o),
                Err(e) => spec_chain_rel(filters, input, ctx, input, Err(e)) || spec_expr_aborted(
                    filters,
                    items.drop_first(),
                    input,
                    ctx,
                    out,
                ),
            },
        }
    }
}

/// An expression item succeeded: its chain produced some value whose
/// (possibly quoted) form is a prefix of the output, and the remaining
/// items produced the rest.
pub open spec fn spec_expr_ok(
    filters: Seq<SpecParsedFilter>,
    rest: Seq<SpecParsedItem>,
    input: Seq<char>,
    ctx: SpecContext,
    o: Seq<char>,
) -> bool
    decreases rest.len(), 1int,
{
    exists|v2: Seq<char>|
        #[trigger] spec_chain_ok(filters, input, ctx, input, v2) && o.len() >= spec_quoted(
            v2,
            ctx.expression_quotes,
        ).len() && o.take(spec_quoted(v2, ctx.expression_quotes).len() as int) == spec_quoted(
            v2,
            ctx.expression_quotes,
        ) && spec_eval_rel(
            rest,
            input,
            ctx,
            Ok(o.skip(spec_quoted(v2, ctx.expression_quotes).len() as int)),
        )
}

/// An expression item succeeded but a later item failed.
pub open spec fn spec_expr_aborted(
    filters: Seq<SpecParsedFilter>,
    rest: Seq<SpecParsedItem>,
    input: Seq<char>,
    ctx: SpecContext,
    out: Result<Seq<char>, eval::SpecEvalError>,
) -> bool
    decreases rest.len(), 1int,
{
    exists|v2: Seq<char>|
        #[trigger] spec_chain_ok(filters, input, ctx, input, v2) && spec_eval_rel(
            rest,
            input,
            ctx,
            out,
        )
}

/// Introduction form for a successful expression item.
proof fn lemma_expr_ok_intro(
    filters: Seq<SpecParsedFilter>,
    rest: Seq<SpecParsedItem>,
    input: Seq<char>,
    ctx: SpecContext,
    v2: Seq<char>,
    o: Seq<char>,
)
    requires
        spec_chain_ok(filters, input, ctx, input, v2),
        o.len() >= spec_quoted(v2, ctx.expression_quotes).len(),
        o.take(spec_quoted(v2, ctx.expression_quotes).len() as int) == spec_quoted(
            v2,
            ctx.expression_quotes,
        ),
        spec_eval_rel(
            rest,
            input,
            ctx,
            Ok(o.skip(spec_quoted(v2, ctx.expression_quotes).len() as int)),
        ),
    ensures
        spec_expr_ok(filters, rest, input, ctx, o),
{
}

/// Introduction form for an expression item followed by a failure.
proof fn lemma_expr_aborted_intro(
    filters: Seq<SpecParsedFilter>,
    rest: Seq<SpecParsedItem>,
    input: Seq<char>,
    ctx: SpecContext,
    v2: Seq<char>,
    out: Result<Seq<char>, eval::SpecEvalError>,
)
    requires
        spec_chain_ok(filters, input, ctx, input, v2),
        spec_eval_rel(rest, input, ctx, out),
    ensures
        spec_expr_aborted(filters, rest, input, ctx, out),
{
}

/// Applies the filters of one expression from `index` on to `value`.
fn eval_chain<'a>(
    filters: &'a Vec<Parsed<Filter>>,
    index: usize,
    value: String,
    input: &str,
    context: &eval::Context,
) -> (r: Result<String, eval::Error<'a>>)
    requires
        index <= filters@.len(),
    ensures
        match r {
            Ok(w) => spec_chain_rel(
                filters_view(filters@).skip(index as int),
                value@,
                context@,
                input@,
                Ok(w@),
            ),
            Err(e) => spec_chain_rel(
                filters_view(filters@).skip(index as int),
                value@,
                context@,
                input@,
                Err(e@),
            ),
        },
    decreases filters@.len() - index,
{
    if index == filters.len() {
        proof {
            assert(filters_view(filters@).skip(filters@.len() as int) =~= Seq::<
                SpecParsedFilter,
            >::empty());
        }
        return Ok(value);
    }
    let ghost fseq = filters_view(filters@).skip(index as int);
    proof {
        assert(fseq[0] == parsed_filter_view(filters@[index as int]));
        assert(fseq.drop_first() =~= filters_view(filters@).skip(index + 1));
    }
    let pf = &filters[index];
    let ghost v0 = value@;
    match pf.value.eval(value, context) {
        Ok(v2) => {
            let ghost v2v = v2@;
            proof {
                assert(spec_filter_ok(fseq[0].value, v0, context@, v2v));
            }
            match eval_chain(filters, index + 1, v2, input, context) {
                Ok(w) => {
                    proof {
                        assert(spec_chain_rel(fseq, v0, context@, input@, Ok(w@)));
                    }
                    Ok(w)
                },
                Err(e) => {
                    proof {
                        assert(spec_chain_rel(fseq, v0, context@, input@, Err(e@)));
                    }
                    Err(e)
                },
            }
        },
        Err(kind) => {
            let failure = eval::Error {
                kind,
                value: input.to_owned(),
                cause: &pf.value,
                start: pf.start,
                end: pf.end,
            };
            proof {
                assert(spec_chain_rel(fseq, v0, context@, input@, Err(failure@)));
            }
            Err(failure)
        },
    }
}

/// Evaluates the items from `index` on against `input`.
fn eval_items_from<'a>(
    items: &'a Vec<Parsed<Item>>,
    index: usize,
    input: &str,
    context: &eval::Context,
) -> (r: Result<String, eval::Error<'a>>)
    requires
        index <= items@.len(),
    ensures
        match r {
            Ok(o) => spec_eval_rel(
                items_view(items@).skip(index as int),
                input@,
                context@,
                Ok(o@),
            ),
            Err(e) => spec_eval_rel(
                items_view(items@).skip(index as int),
                input@,
                context@,
                Err(e@),
            ),
        },
    decreases items@.len() - index,
{
    if index == items.len() {
        proof {
            assert(items_view(items@).skip(items@.len() as int) =~= Seq::<
                SpecParsedItem,
            >::empty());
        }
        return Ok(String::new());
    }
    let ghost iseq = items_view(items@).skip(index as int);
    proof {
        assert(iseq[0] == parsed_item_view(items@[index as int]));
        assert(iseq.drop_first() =~= items_view(items@).skip(index + 1));
    }
    match &items[index].value {
        Item::Constant(text) => {
            match eval_items_from(items, index + 1, input, context) {
                Ok(rest) => {
                    let mut out = text.clone();
                    out.append(rest.as_str());
                    proof {
                        assert(out@.take(text@.len() as int) =~= text@);
                        assert(out@.skip(text@.len() as int) =~= rest@);
                        assert(spec_eval_rel(iseq, input@, context@, Ok(out@)));
                    }
                    Ok(out)
                },
                Err(e) => {
                    proof {
                        assert(spec_eval_rel(iseq, input@, context@, Err(e@)));
                    }
                    Err(e)
                },
            }
        },
        Item::Expression(filters) => {
            proof {
                assert(filters_view(filters@).skip(0) =~= filters_view(filters@));
            }
            match eval_chain(filters, 0, input.to_owned(), input, context) {
                Ok(v2) => {
                    let ghost v2v = v2@;
                    let quoted = match context.expression_quotes {
                        Some(q) => {
                            let mut qv = String::new();
                            crate::chars::push_char(&mut qv, q);
                            qv.append(v2.as_str());
                            crate::chars::push_char(&mut qv, q);
                            proof {
                                assert(qv@ =~= spec_quoted(
                                    v2v,
                                    context@.expression_quotes,
                                ));
                            }
                            qv
                        },
                        None => v2,
                    };
                    let ghost qv0 = quoted@;
                    proof {
                        assert(qv0 == spec_quoted(v2v, context@.expression_quotes));
                    }
                    match eval_items_from(items, index + 1, input, context) {
                        Ok(rest) => {
                            let mut out = quoted;
                            out.append(rest.as_str());
                            proof {
                                assert(out@.take(qv0.len() as int) =~= qv0);
                                assert(out@.skip(qv0.len() as int) =~= rest@);
                                assert(spec_chain_ok(
                                    filters_view(filters@),
                                    input@,
                                    context@,
                                    input@,
                                    v2v,
                                ));
                                assert(iseq[0].value == SpecItem::Expression(
                                    filters_view(filters@),
                                ));
                                assert(out@.take(qv0.len() as int) == qv0);
                                assert(out@.skip(qv0.len() as int) == rest@);
                                lemma_expr_ok_intro(
                                    filters_view(filters@),
                                    iseq.drop_first(),
                                    input@,
                                    context@,
                                    v2v,
                                    out@,
                                );
                                assert(spec_eval_rel(iseq, input@, context@, Ok(out@)));
                            }
                            Ok(out)
                        },
                        Err(e) => {
                            proof {
                                lemma_expr_aborted_intro(
                                    filters_view(filters@),
                                    iseq.drop_first(),
                                    input@,
                                    context@,
                                    v2v,
                                    Err(e@),
                                );
                                assert(spec_eval_rel(iseq, input@, context@, Err(e@)));
                            }
                            Err(e)
                        },
                    }
                },
                Err(e) => {
                    proof {
                        assert(spec_eval_rel(iseq, input@, context@, Err(e@)));
                    }
                    Err(e)
                },
            }
        },
    }
}

impl Pattern {
    /// Evaluates this pattern against one input value.  Constants are
    /// concatenated verbatim; each expression threads the input left to
    /// right through its filters, and the first failure aborts the whole
    /// evaluation, reporting the original input, the failing filter and
    /// its byte range.
    pub fn eval<'a>(&'a self, input: &str, context: &eval::Context) -> (r: Result<
        String,
        eval::Error<'a>,
    >)
        ensures
            match r {
                Ok(o) => spec_eval_rel(self.spec_items(), input@, context@, Ok(o@)),
                Err(e) => spec_eval_rel(self.spec_items(), input@, context@, Err(e@)),
            },
    {
        proof {
            assert(items_view(self.items@).skip(0) =~= items_view(self.items@));
        }
        eval_items_from(&self.items, 0, input, context)
    }
}

} // verus!

verus! {

/// The generator state a pattern may draw on.
#[derive(Clone, Copy)]
pub enum UsageKind {
    LocalCounter,
    GlobalCounter,
    RegexCapture,
}

pub open spec fn spec_usage_matches(kind: UsageKind, f: SpecFilter) -> bool {
    match kind {
        UsageKind::LocalCounter => f is LocalCounter,
        UsageKind::GlobalCounter => f is GlobalCounter,
        UsageKind::RegexCapture => f is RegexCapture,
    }
}

/// Item `k` holds, at position `l` of its filter chain, a filter of the
/// given kind.
pub open spec fn spec_uses_at(
    items: Seq<SpecParsedItem>,
    k: int,
    l: int,
    kind: UsageKind,
) -> bool {
    &&& 0 <= k < items.len()
    &&& match items[k].value {
        SpecItem::Expression(fs) => 0 <= l < fs.len() && spec_usage_matches(kind, fs[l].value),
        SpecItem::Constant(_) => false,
    }
}

/// Some filter of the given kind occurs in some expression of the pattern.
pub open spec fn spec_uses(items: Seq<SpecParsedItem>, kind: UsageKind) -> bool {
    exists|k: int, l: int| #[trigger] spec_uses_at(items, k, l, kind)
}

impl Pattern {
    /// Whether any expression holds a filter of the given kind.
    fn uses_filter(&self, kind: UsageKind) -> (r: bool)
        ensures
            r == spec_uses(self.spec_items(), kind),
    {
        let ghost iv = self.spec_items();
        let mut k: usize = 0;
        while k < self.items.len()
            invariant
                0 <= k <= self.items@.len(),
                iv == self.spec_items(),
                iv.len() == self.items@.len(),
                forall|k2: int, l2: int| 0 <= k2 < k ==> !spec_uses_at(iv, k2, l2, kind),
            decreases self.items@.len() - k,
        {
            match &self.items[k].value {
                Item::Expression(filters) => {
                    let mut l: usize = 0;
                    while l < filters.len()
                        invariant
                            0 <= l <= filters@.len(),
                            iv == self.spec_items(),
                            0 <= k < self.items@.len(),
                            iv.len() == self.items@.len(),
                            iv[k as int].value == SpecItem::Expression(filters_view(filters@)),
                            forall|l2: int| 0 <= l2 < l ==> !spec_uses_at(iv, k as int, l2, kind),
                        decreases filters@.len() - l,
                    {
                        let found = match kind {
                            UsageKind::LocalCounter => matches!(
                                &filters[l].value,
                                Filter::LocalCounter
                            ),
                            UsageKind::GlobalCounter => matches!(
                                &filters[l].value,
                                Filter::GlobalCounter
                            ),
                            UsageKind::RegexCapture => matches!(
                                &filters[l].value,
                                Filter::RegexCapture(_)
                            ),
                        };
                        if found {
                            proof {
                                assert(filters_view(filters@)[l as int] == parsed_filter_view(
                                    filters@[l as int],
                                ));
                                assert(spec_uses_at(iv, k as int, l as int, kind));
                            }
                            return true;
                        }
                        proof {
                            assert(filters_view(filters@)[l as int] == parsed_filter_view(
                                filters@[l as int],
                            ));
                        }
                        l = l + 1;
                    }
                },
                Item::Constant(_) => {},
            }
            k = k + 1;
        }
        proof {
            assert forall|k2: int, l2: int| !spec_uses_at(iv, k2, l2, kind) by {
                if 0 <= k2 < iv.len() {
                }
            }
        }
        false
    }

    /// Whether evaluation will read the per-directory counter.
    pub fn uses_local_counter(&self) -> (r: bool)
        ensures
            r == spec_uses(self.spec_items(), UsageKind::LocalCounter),
    {
        self.uses_filter(UsageKind::LocalCounter)
    }

    /// Whether evaluation will read the per-run counter.
    pub fn uses_global_counter(&self) -> (r: bool)
        ensures
            r == spec_uses(self.spec_items(), UsageKind::GlobalCounter),
    {
        self.uses_filter(UsageKind::GlobalCounter)
    }

    /// Whether evaluation will read the upstream capture groups.
    pub fn uses_regex_capture(&self) -> (r: bool)
        ensures
            r == spec_uses(self.spec_items(), UsageKind::RegexCapture),
    {
        self.uses_filter(UsageKind::RegexCapture)
    }
}

} // verus!

verus! {

/// A scan outside any expression consumes brace-free text whole.
proof fn lemma_scan_plain(src: Seq<char>, i: int)
    requires
        0 <= i <= src.len(),
        forall|k: int| i <= k < src.len() ==> src[k] != '{' && src[k] != '}',
    ensures
        crate::lexer::spec_scan_outside(src, i).0 == crate::reader::raw_seq(src.skip(i)),
        crate::lexer::spec_scan_outside(src, i).1 == src.len(),
    decreases src.len() - i,
{
    if i >= src.len() {
        assert(crate::reader::raw_seq(src.skip(i)) =~= Seq::<Char>::empty());
    } else {
        let rest = crate::lexer::spec_scan_outside(src, i + 1);
        assert(crate::lexer::spec_scan_outside(src, i) == (
            seq![Char::Raw(src[i])] + rest.0,
            rest.1,
        ));
        lemma_scan_plain(src, i + 1);
        crate::lexer::lemma_cons_parts(Char::Raw(src[i]), rest.0);
        let run = crate::lexer::spec_scan_outside(src, i).0;
        assert(run == seq![Char::Raw(src[i])] + rest.0);
        assert forall|k: int|
            0 <= k < crate::reader::raw_seq(src.skip(i)).len() implies crate::reader::raw_seq(
            src.skip(i),
        )[k] == run[k] by {
            assert(crate::reader::raw_seq(src.skip(i))[k] == crate::reader::raw_char(
                src.skip(i)[k],
            ));
            if k == 0 {
                assert(run[0] == Char::Raw(src[i]));
            } else {
                assert(run[k] == run.drop_first()[k - 1]);
                assert(run.drop_first()[k - 1] == crate::reader::raw_seq(src.skip(i + 1))[k
                    - 1]);
                assert(crate::reader::raw_seq(src.skip(i + 1))[k - 1]
                    == crate::reader::raw_char(src.skip(i + 1)[k - 1]));
                assert(src.skip(i + 1)[k - 1] == src[i + k]);
                assert(src.skip(i)[k] == src[i + k]);
            }
        }
        assert(run =~= crate::reader::raw_seq(src.skip(i)));
    }
}

/// Resolving no escapes leaves the characters unchanged.
proof fn lemma_values_of_raw(s: Seq<char>)
    ensures
        seq_values(crate::reader::raw_seq(s)) == s,
{
    assert(seq_values(crate::reader::raw_seq(s)) =~= s);
}

/// Plain text round-trips: a source with no unescaped `{`, `}` or `|`
/// parses, and evaluating it against any input and context returns the
/// source unchanged.
pub proof fn lemma_plain_text_round_trip(
    src: Seq<char>,
    input: Seq<char>,
    ctx: SpecContext,
    out: Result<Seq<char>, eval::SpecEvalError>,
)
    requires
        forall|k: int| 0 <= k < src.len() ==> src[k] != '{' && src[k] != '}' && src[k] != '|',
        spec_parse_items(src, 0) matches Ok(items) && spec_eval_rel(items, input, ctx, out),
    ensures
        out == Ok::<Seq<char>, eval::SpecEvalError>(src),
{
    let items = choose|items: Seq<SpecParsedItem>|
        spec_parse_items(src, 0) == Ok::<_, SpecError>(items) && spec_eval_rel(
            items,
            input,
            ctx,
            out,
        );
    lemma_scan_plain(src, 0);
    assert(src.skip(0) =~= src);
    lemma_values_of_raw(src);
    if src.len() == 0 {
        assert(spec_next_lexeme(src, 0, false) is None);
        assert(items =~= Seq::<SpecParsedItem>::empty());
        assert(out == Ok::<Seq<char>, eval::SpecEvalError>(Seq::<char>::empty()));
        assert(src =~= Seq::<char>::empty());
    } else {
        let run = crate::lexer::spec_scan_outside(src, 0);
        assert(run.0.len() == src.len());
        assert(spec_next_lexeme(src, 0, false) == Some(
            (SpecLexeme::Raw(run.0), src.len() as int, false),
        ));
        let item = SpecParsedItem {
            value: SpecItem::Constant(src),
            start: spec_bytes_len(src.take(0)) as int,
            end: spec_bytes_len(src.take(src.len() as int)) as int,
        };
        assert(crate::lexer::spec_scan_outside(src, src.len() as int) == (
            Seq::<Char>::empty(),
            src.len() as int,
        ));
        assert(spec_next_lexeme(src, src.len() as int, false) is None);
        assert(spec_parse_items(src, src.len() as int) == Ok::<_, SpecError>(Seq::<
            SpecParsedItem,
        >::empty()));
        assert(spec_parse_items(src, 0) == Ok::<_, SpecError>(
            seq![item] + Seq::<SpecParsedItem>::empty(),
        ));
        lemma_item_cons(item, Seq::<SpecParsedItem>::empty());
        assert(items == seq![item] + Seq::<SpecParsedItem>::empty());
        assert(items.len() == 1);
        assert(items[0] == item);
        assert(items.drop_first() =~= Seq::<SpecParsedItem>::empty());
        match out {
            Ok(o) => {
                assert(o.len() >= src.len() && o.take(src.len() as int) == src && spec_eval_rel(
                    items.drop_first(),
                    input,
                    ctx,
                    Ok(o.skip(src.len() as int)),
                ));
                assert(o.skip(src.len() as int) == Seq::<char>::empty());
                assert(o =~= src);
            },
            Err(_) => {
                assert(spec_eval_rel(items.drop_first(), input, ctx, out));
                assert(false);
            },
        }
    }
}

/// An escaped opening brace: `{{` parses to the single constant `{`, and
/// evaluating it against any input and context yields `{`.
pub proof fn lemma_escaped_expr_start(
    input: Seq<char>,
    ctx: SpecContext,
    out: Result<Seq<char>, eval::SpecEvalError>,
)
    requires
        spec_parse_items(seq!['{', '{'], 0) matches Ok(items) && spec_eval_rel(
            items,
            input,
            ctx,
            out,
        ),
    ensures
        out == Ok::<Seq<char>, eval::SpecEvalError>(seq!['{']),
{
    lemma_escaped_pair(seq!['{', '{'], '{', input, ctx, out);
}

/// An escaped closing brace: `}}` parses to the single constant `}`, and
/// evaluating it against any input and context yields `}`.
pub proof fn lemma_escaped_expr_end(
    input: Seq<char>,
    ctx: SpecContext,
    out: Result<Seq<char>, eval::SpecEvalError>,
)
    requires
        spec_parse_items(seq!['}', '}'], 0) matches Ok(items) && spec_eval_rel(
            items,
            input,
            ctx,
            out,
        ),
    ensures
        out == Ok::<Seq<char>, eval::SpecEvalError>(seq!['}']),
{
    lemma_escaped_pair(seq!['}', '}'], '}', input, ctx, out);
}

/// Common argument for the two doubled-brace escapes.
proof fn lemma_escaped_pair(
    src: Seq<char>,
    b: char,
    input: Seq<char>,
    ctx: SpecContext,
    out: Result<Seq<char>, eval::SpecEvalError>,
)
    requires
        src == seq![b, b],
        b == '{' || b == '}',
        spec_parse_items(src, 0) matches Ok(items) && spec_eval_rel(items, input, ctx, out),
    ensures
        out == Ok::<Seq<char>, eval::SpecEvalError>(seq![b]),
{
    let items = choose|items: Seq<SpecParsedItem>|
        spec_parse_items(src, 0) == Ok::<_, SpecError>(items) && spec_eval_rel(
            items,
            input,
            ctx,
            out,
        );
    assert(src.len() == 2);
    assert(src[0] == b && src[1] == b);
    assert(crate::lexer::spec_scan_outside(src, 2) == (Seq::<Char>::empty(), 2int));
    let rest = crate::lexer::spec_scan_outside(src, 2);
    assert(crate::lexer::spec_scan_outside(src, 0) == (seq![Char::Escaped(b)] + rest.0, rest.1));
    assert(seq![Char::Escaped(b)] + rest.0 =~= seq![Char::Escaped(b)]);
    assert(crate::lexer::spec_scan_outside(src, 0) == (seq![Char::Escaped(b)], 2int));
    assert(spec_next_lexeme(src, 0, false) == Some(
        (SpecLexeme::Raw(seq![Char::Escaped(b)]), 2int, false),
    ));
    assert(spec_next_lexeme(src, 2, false) is None);
    assert(spec_parse_items(src, 2) == Ok::<_, SpecError>(Seq::<SpecParsedItem>::empty()));
    assert(seq_values(seq![Char::Escaped(b)]) =~= seq![b]);
    let item = SpecParsedItem {
        value: SpecItem::Constant(seq![b]),
        start: spec_bytes_len(src.take(0)) as int,
        end: spec_bytes_len(src.take(2)) as int,
    };
    assert(spec_parse_items(src, 0) == Ok::<_, SpecError>(
        seq![item] + Seq::<SpecParsedItem>::empty(),
    ));
    lemma_item_cons(item, Seq::<SpecParsedItem>::empty());
    assert(items == seq![item] + Seq::<SpecParsedItem>::empty());
    assert(items[0] == item);
    assert(items.drop_first() =~= Seq::<SpecParsedItem>::empty());
    match out {
        Ok(o) => {
            assert(o.len() >= 1 && o.take(1) == seq![b] && spec_eval_rel(
                items.drop_first(),
                input,
                ctx,
                Ok(o.skip(1)),
            ));
            assert(o.skip(1) == Seq::<char>::empty());
            assert(o =~= seq![b]);
        },
        Err(_) => {
            assert(spec_eval_rel(items.drop_first(), input, ctx, out));
            assert(false);
        },
    }
}

/// Inside an expression, the fragment `|{|}` is raw text standing for the
/// two literal characters `{}`.
pub proof fn lemma_escaped_braces_inside_expression()
    ensures
        spec_next_lexeme(seq!['{', '|', '{', '|', '}'], 1, true) == Some(
            (
                SpecLexeme::Raw(seq![Char::Escaped('{'), Char::Escaped('}')]),
                5int,
                true,
            ),
        ),
        seq_values(seq![Char::Escaped('{'), Char::Escaped('}')]) == seq!['{', '}'],
{
    let src = seq!['{', '|', '{', '|', '}'];
    assert(src.len() == 5);
    assert(src[1] == '|' && src[2] == '{' && src[3] == '|' && src[4] == '}');
    assert(crate::lexer::spec_scan_inside(src, 5) == (Seq::<Char>::empty(), 5int));
    let rest3 = crate::lexer::spec_scan_inside(src, 5);
    assert(crate::lexer::spec_scan_inside(src, 3) == (
        seq![Char::Escaped(src[4])] + rest3.0,
        rest3.1,
    ));
    assert(seq![Char::Escaped(src[4])] + rest3.0 =~= seq![Char::Escaped('}')]);
    let rest1 = crate::lexer::spec_scan_inside(src, 3);
    assert(crate::lexer::spec_scan_inside(src, 1) == (
        seq![Char::Escaped(src[2])] + rest1.0,
        rest1.1,
    ));
    assert(seq![Char::Escaped(src[2])] + rest1.0 =~= seq![
        Char::Escaped('{'),
        Char::Escaped('}'),
    ]);
    assert(seq![Char::Escaped('{'), Char::Escaped('}')].len() == 2);
    assert(seq_values(seq![Char::Escaped('{'), Char::Escaped('}')]) =~= seq!['{', '}']);
}

/// A filter whose output is a function of the value and the context
/// alone: every filter except the fresh-UUID generator and filesystem
/// canonicalization.
pub open spec fn spec_filter_is_deterministic(f: SpecFilter) -> bool {
    !(f is Uuid) && !(f is CanonicalPath)
}

pub open spec fn spec_filters_deterministic(filters: Seq<SpecParsedFilter>) -> bool {
    forall|k: int|
        0 <= k < filters.len() ==> spec_filter_is_deterministic(
            (#[trigger] filters[k]).value,
        )
}

pub open spec fn spec_item_deterministic(item: SpecParsedItem) -> bool {
    match item.value {
        SpecItem::Constant(_) => true,
        SpecItem::Expression(fs) => spec_filters_deterministic(fs),
    }
}

pub open spec fn spec_items_deterministic(items: Seq<SpecParsedItem>) -> bool {
    forall|k: int| 0 <= k < items.len() ==> spec_item_deterministic(#[trigger] items[k])
}

/// A deterministic filter's output is unique.
proof fn lemma_filter_ok_unique(
    f: SpecFilter,
    v: Seq<char>,
    ctx: SpecContext,
    a: Seq<char>,
    b: Seq<char>,
)
    requires
        spec_filter_is_deterministic(f),
        spec_filter_ok(f, v, ctx, a),
        spec_filter_ok(f, v, ctx, b),
    ensures
        a == b,
{
}

/// A chain of deterministic filters has a unique outcome.
proof fn lemma_chain_unique(
    filters: Seq<SpecParsedFilter>,
    v: Seq<char>,
    ctx: SpecContext,
    input: Seq<char>,
    o1: Result<Seq<char>, eval::SpecEvalError>,
    o2: Result<Seq<char>, eval::SpecEvalError>,
)
    requires
        spec_filters_deterministic(filters),
        spec_chain_rel(filters, v, ctx, input, o1),
        spec_chain_rel(filters, v, ctx, input, o2),
    ensures
        o1 == o2,
    decreases filters.len(),
{
    if filters.len() > 0 {
        let f = filters[0];
        assert(spec_filter_is_deterministic(f.value));
        if o1 is Err {
            let e = o1->Err_0;
            assert(!spec_filter_err(f.value, v, ctx, e.kind));
        }
        if o2 is Err {
            let e = o2->Err_0;
            assert(!spec_filter_err(f.value, v, ctx, e.kind));
        }
        let va = choose|v2: Seq<char>|
            spec_filter_ok(f.value, v, ctx, v2) && spec_chain_rel(
                filters.drop_first(),
                v2,
                ctx,
                input,
                o1,
            );
        let vb = choose|v2: Seq<char>|
            spec_filter_ok(f.value, v, ctx, v2) && spec_chain_rel(
                filters.drop_first(),
                v2,
                ctx,
                input,
                o2,
            );
        lemma_filter_ok_unique(f.value, v, ctx, va, vb);
        assert(spec_filters_deterministic(filters.drop_first())) by {
            assert forall|k: int|
                0 <= k < filters.drop_first().len() implies spec_filter_is_deterministic(
                (#[trigger] filters.drop_first()[k]).value,
            ) by {
                assert(filters.drop_first()[k] == filters[k + 1]);
            }
        }
        lemma_chain_unique(filters.drop_first(), va, ctx, input, o1, o2);
    }
}

/// Determinism: the same pattern, the same input and the same context
/// admit exactly one evaluation outcome, as long as no filter draws on
/// fresh randomness or the filesystem — the UUID generator (whose output
/// is only promised its version-4 shape) and canonicalization are the two
/// exceptions.
pub proof fn lemma_eval_deterministic(
    items: Seq<SpecParsedItem>,
    input: Seq<char>,
    ctx: SpecContext,
    o1: Result<Seq<char>, eval::SpecEvalError>,
    o2: Result<Seq<char>, eval::SpecEvalError>,
)
    requires
        spec_items_deterministic(items),
        spec_eval_rel(items, input, ctx, o1),
        spec_eval_rel(items, input, ctx, o2),
    ensures
        o1 == o2,
    decreases items.len(),
{
    if items.len() > 0 {
        assert(spec_item_deterministic(items[0]));
        assert(spec_items_deterministic(items.drop_first())) by {
            assert forall|k: int|
                0 <= k < items.drop_first().len() implies spec_item_deterministic(
                #[trigger] items.drop_first()[k],
            ) by {
                assert(items.drop_first()[k] == items[k + 1]);
            }
        }
        match items[0].value {
            SpecItem::Constant(text) => {
                match o1 {
                    Ok(a) => {
                        match o2 {
                            Ok(b) => {
                                lemma_eval_deterministic(
                                    items.drop_first(),
                                    input,
                                    ctx,
                                    Ok(a.skip(text.len() as int)),
                                    Ok(b.skip(text.len() as int)),
                                );
                                assert(a =~= a.take(text.len() as int) + a.skip(
                                    text.len() as int,
                                ));
                                assert(b =~= b.take(text.len() as int) + b.skip(
                                    text.len() as int,
                                ));
                            },
                            Err(_) => {
                                lemma_eval_deterministic(
                                    items.drop_first(),
                                    input,
                                    ctx,
                                    Ok(a.skip(text.len() as int)),
                                    o2,
                                );
                            },
                        }
                    },
                    Err(_) => {
                        match o2 {
                            Ok(b) => {
                                lemma_eval_deterministic(
                                    items.drop_first(),
                                    input,
                                    ctx,
                                    o1,
                                    Ok(b.skip(text.len() as int)),
                                );
                            },
                            Err(_) => {
                                lemma_eval_deterministic(items.drop_first(), input, ctx, o1, o2);
                            },
                        }
                    },
                }
            },
            SpecItem::Expression(filters) => {
                let rest = items.drop_first();
                let r1 = lemma_expr_outcome(filters, rest, input, ctx, o1);
                let r2 = lemma_expr_outcome(filters, rest, input, ctx, o2);
                lemma_chain_unique(filters, input, ctx, input, r1, r2);
                assert(r1 == r2);
                match o1 {
                    Ok(a) => {
                        let va = r1->Ok_0;
                        let q = spec_quoted(va, ctx.expression_quotes);
                        match o2 {
                            Ok(b) => {
                                lemma_eval_deterministic(
                                    rest,
                                    input,
                                    ctx,
                                    Ok(a.skip(q.len() as int)),
                                    Ok(b.skip(q.len() as int)),
                                );
                                assert(a =~= a.take(q.len() as int) + a.skip(q.len() as int));
                                assert(b =~= b.take(q.len() as int) + b.skip(q.len() as int));
                            },
                            Err(_) => {
                                lemma_eval_deterministic(
                                    rest,
                                    input,
                                    ctx,
                                    Ok(a.skip(q.len() as int)),
                                    o2,
                                );
                                assert(false);
                            },
                        }
                    },
                    Err(_) => {
                        if r1 is Ok {
                            match o2 {
                                Ok(b) => {
                                    let q = spec_quoted(r2->Ok_0, ctx.expression_quotes);
                                    lemma_eval_deterministic(
                                        rest,
                                        input,
                                        ctx,
                                        o1,
                                        Ok(b.skip(q.len() as int)),
                                    );
                                    assert(false);
                                },
                                Err(_) => {
                                    lemma_eval_deterministic(rest, input, ctx, o1, o2);
                                },
                            }
                        } else {
                            match o2 {
                                Ok(_) => {
                                    assert(false);
                                },
                                Err(_) => {},
                            }
                        }
                    },
                }
            },
        }
    }
}

/// The outcome of an expression item's own chain, recovered from the
/// evaluation relation: either the chain failed with the reported error,
/// or it succeeded with the value whose quoted form prefixes the output,
/// and the remaining items relate to the remaining output.
proof fn lemma_expr_outcome(
    filters: Seq<SpecParsedFilter>,
    rest: Seq<SpecParsedItem>,
    input: Seq<char>,
    ctx: SpecContext,
    out: Result<Seq<char>, eval::SpecEvalError>,
) -> (chain_out: Result<Seq<char>, eval::SpecEvalError>)
    requires
        ({
            let items = seq![
                SpecParsedItem { value: SpecItem::Expression(filters), start: 0, end: 0 },
            ] + rest;
            spec_eval_rel(items, input, ctx, out)
        }) || (match out {
            Ok(o) => spec_expr_ok(filters, rest, input, ctx, o),
            Err(e) => spec_chain_rel(filters, input, ctx, input, Err(e)) || spec_expr_aborted(
                filters,
                rest,
                input,
                ctx,
                out,
            ),
        }),
    ensures
        spec_chain_rel(filters, input, ctx, input, chain_out),
        match out {
            Ok(o) => {
                let q = spec_quoted(chain_out->Ok_0, ctx.expression_quotes);
                chain_out is Ok && o.len() >= q.len() && o.take(q.len() as int) == q
                    && spec_eval_rel(rest, input, ctx, Ok(o.skip(q.len() as int)))
            },
            Err(e) => chain_out is Err ==> chain_out == Err::<Seq<char>, _>(e),
        },
        out is Err && chain_out is Ok ==> spec_eval_rel(rest, input, ctx, out),
{
    let items = seq![
        SpecParsedItem { value: SpecItem::Expression(filters), start: 0, end: 0 },
    ] + rest;
    lemma_item_cons(
        SpecParsedItem { value: SpecItem::Expression(filters), start: 0, end: 0 },
        rest,
    );
    assert(items[0].value == SpecItem::Expression(filters));
    assert(items.drop_first() == rest);
    match out {
        Ok(o) => {
            assert(spec_expr_ok(filters, rest, input, ctx, o));
            let v2 = choose|v2: Seq<char>|
                spec_chain_ok(filters, input, ctx, input, v2) && o.len() >= spec_quoted(
                    v2,
                    ctx.expression_quotes,
                ).len() && o.take(spec_quoted(v2, ctx.expression_quotes).len() as int)
                    == spec_quoted(v2, ctx.expression_quotes) && spec_eval_rel(
                    rest,
                    input,
                    ctx,
                    Ok(o.skip(spec_quoted(v2, ctx.expression_quotes).len() as int)),
                );
            Ok(v2)
        },
        Err(e) => {
            if spec_chain_rel(filters, input, ctx, input, Err(e)) {
                Err(e)
            } else {
                assert(spec_expr_aborted(filters, rest, input, ctx, out));
                let v2 = choose|v2: Seq<char>|
                    spec_chain_ok(filters, input, ctx, input, v2) && spec_eval_rel(
                        rest,
                        input,
                        ctx,
                        out,
                    );
                Ok(v2)
            }
        },
    }
}

} // verus!

verus! {

/// The view of one explanation pair.
pub open spec fn pair_view(p: (String, String)) -> (Seq<char>, Seq<char>) {
    (p.0@, p.1@)
}

pub open spec fn pairs_view(s: Seq<(String, String)>) -> Seq<(Seq<char>, Seq<char>)> {
    Seq::new(s.len(), |i: int| pair_view(s[i]))
}

/// The explanation of one positioned filter: the source text its byte
/// range covers, and its description.
pub open spec fn spec_filter_explained(src: Seq<char>, f: SpecParsedFilter) -> (
    Seq<char>,
    Seq<char>,
) {
    (
        crate::utils::spec_byte_slice(src, f.start, f.end),
        crate::filter::spec_describe_filter(f.value),
    )
}

/// The explanations of a filter chain, in order.
pub open spec fn spec_filters_explained(src: Seq<char>, fs: Seq<SpecParsedFilter>) -> Seq<
    (Seq<char>, Seq<char>),
>
    decreases fs.len(),
{
    if fs.len() == 0 {
        Seq::empty()
    } else {
        spec_filters_explained(src, fs.drop_last()).push(
            spec_filter_explained(src, fs.last()),
        )
    }
}

/// The explanations of a whole pattern: its expressions' filters in
/// order; constants explain nothing.
pub open spec fn spec_explained(src: Seq<char>, items: Seq<SpecParsedItem>) -> Seq<
    (Seq<char>, Seq<char>),
>
    decreases items.len(),
{
    if items.len() == 0 {
        Seq::empty()
    } else {
        spec_explained(src, items.drop_last()) + (match items.last().value {
            SpecItem::Constant(_) => Seq::empty(),
            SpecItem::Expression(fs) => spec_filters_explained(src, fs),
        })
    }
}

impl Pattern {
    /// One line of explanation per filter: the source excerpt its byte
    /// range covers, and what the filter does.
    pub fn explain(&self) -> (r: Vec<(String, String)>)
        ensures
            pairs_view(r@) == spec_explained(self.source@, self.spec_items()),
    {
        let ghost src = self.source@;
        let ghost iv = self.spec_items();
        let mut out: Vec<(String, String)> = Vec::new();
        let mut k: usize = 0;
        proof {
            assert(iv.take(0) =~= Seq::<SpecParsedItem>::empty());
            assert(pairs_view(out@) =~= spec_explained(src, iv.take(0)));
        }
        while k < self.items.len()
            invariant
                0 <= k <= self.items@.len(),
                iv == self.spec_items(),
                src == self.source@,
                iv.len() == self.items@.len(),
                pairs_view(out@) == spec_explained(src, iv.take(k as int)),
            decreases self.items@.len() - k,
        {
            proof {
                assert(iv.take(k + 1).drop_last() =~= iv.take(k as int));
                assert(iv.take(k + 1).last() == iv[k as int]);
                assert(iv[k as int] == parsed_item_view(self.items@[k as int]));
            }
            match &self.items[k].value {
                Item::Constant(_) => {
                    proof {
                        assert(pairs_view(out@) =~= spec_explained(src, iv.take(k + 1)));
                    }
                },
                Item::Expression(filters) => {
                    let ghost fv = filters_view(filters@);
                    let mut l: usize = 0;
                    proof {
                        assert(fv.take(0) =~= Seq::<SpecParsedFilter>::empty());
                        assert(pairs_view(out@) + spec_filters_explained(src, fv.take(0))
                            =~= pairs_view(out@));
                    }
                    while l < filters.len()
                        invariant
                            0 <= l <= filters@.len(),
                            iv == self.spec_items(),
                            src == self.source@,
                            0 <= k < self.items@.len(),
                            fv == filters_view(filters@),
                            fv.len() == filters@.len(),
                            pairs_view(out@) == spec_explained(src, iv.take(k as int))
                                + spec_filters_explained(src, fv.take(l as int)),
                        decreases filters@.len() - l,
                    {
                        let pf = &filters[l];
                        proof {
                            assert(fv[l as int] == parsed_filter_view(filters@[l as int]));
                            assert(fv.take(l + 1).drop_last() =~= fv.take(l as int));
                            assert(fv.take(l + 1).last() == fv[l as int]);
                        }
                        let excerpt = if pf.start <= pf.end {
                            crate::utils::slice_by_byte_range(
                                self.source.as_str(),
                                pf.start,
                                pf.end,
                            )
                        } else {
                            String::new()
                        };
                        proof {
                            if pf.start > pf.end {
                                crate::utils::lemma_columns_monotonic(
                                    src,
                                    pf.end as int,
                                    pf.start as int,
                                );
                                let lo = crate::utils::spec_columns(src, pf.start as int) as int;
                                let hi = crate::utils::spec_columns(src, pf.end as int) as int;
                                if hi >= lo {
                                    assert(src.subrange(lo, hi) =~= Seq::<char>::empty());
                                }
                                assert(excerpt@ =~= crate::utils::spec_byte_slice(
                                    src,
                                    pf.start as int,
                                    pf.end as int,
                                ));
                            }
                        }
                        let description = pf.value.describe();
                        let ghost prev = out@;
                        out.push((excerpt, description));
                        proof {
                            assert(pairs_view(out@) =~= pairs_view(prev).push(
                                spec_filter_explained(src, fv[l as int]),
                            ));
                            assert(pairs_view(out@) =~= spec_explained(src, iv.take(k as int))
                                + spec_filters_explained(src, fv.take(l + 1)));
                        }
                        l = l + 1;
                    }
                    proof {
                        assert(fv.take(fv.len() as int) =~= fv);
                        assert(pairs_view(out@) =~= spec_explained(src, iv.take(k + 1)));
                    }
                },
            }
            k = k + 1;
        }
        proof {
            assert(iv.take(iv.len() as int) =~= iv);
        }
        out
    }
}

} // verus!

verus! {

/// The byte ranges of `items` sit side by side: each item starts where
/// the previous one ended, the first starts at `from`, and the last ends
/// at `to`.  Ranges are therefore non-overlapping and, flattened, cover
/// `[from, to)` exactly.
pub open spec fn spec_ranges_chained(items: Seq<SpecParsedItem>, from: int, to: int) -> bool
    decreases items.len(),
{
    if items.len() == 0 {
        from == to
    } else {
        &&& items[0].start == from
        &&& items[0].start <= items[0].end
        &&& spec_ranges_chained(items.drop_first(), items[0].end, to)
    }
}

/// Every parse covers the source exactly: the byte ranges of the items
/// it yields from cursor `i` tile the bytes from the cursor's offset to
/// the end of the source, without gaps or overlaps.
pub proof fn lemma_parsed_ranges_cover_source(
    src: Seq<char>,
    i: int,
    items: Seq<SpecParsedItem>,
)
    requires
        0 <= i <= src.len(),
        spec_parse_items(src, i) == Ok::<Seq<SpecParsedItem>, SpecError>(items),
    ensures
        spec_ranges_chained(
            items,
            spec_bytes_len(src.take(i)) as int,
            spec_bytes_len(src) as int,
        ),
    decreases src.len() - i,
{
    lemma_next_lexeme_progress(src, i, false);
    match spec_next_lexeme(src, i, false) {
        Option::None => {
            crate::lexer::lemma_scan_stop(src, i, false);
            assert(i == src.len());
            assert(src.take(i) =~= src);
            assert(items =~= Seq::<SpecParsedItem>::empty());
        },
        Option::Some((lx, j, _)) => {
            let pos_i = spec_bytes_len(src.take(i)) as int;
            match lx {
                SpecLexeme::Raw(cs) => {
                    let rest = spec_parse_items(src, j)->Ok_0;
                    assert(spec_parse_items(src, j) == Ok::<Seq<SpecParsedItem>, SpecError>(
                        rest,
                    ));
                    let item = SpecParsedItem {
                        value: SpecItem::Constant(seq_values(cs)),
                        start: pos_i,
                        end: spec_bytes_len(src.take(j)) as int,
                    };
                    assert(items == seq![item] + rest);
                    lemma_item_cons(item, rest);
                    crate::lexer::lemma_offset_step(src, i, j);
                    lemma_parsed_ranges_cover_source(src, j, rest);
                    assert(items.drop_first() == rest);
                },
                SpecLexeme::ExprStart => {
                    lemma_parse_filters_bounds(src, j, pos_i, true);
                    let chain = spec_parse_filters(src, j, pos_i, true)->Ok_0;
                    assert(spec_parse_filters(src, j, pos_i, true) == Ok::<
                        (Seq<SpecParsedFilter>, int),
                        SpecError,
                    >(chain));
                    let k = chain.1;
                    let rest = spec_parse_items(src, k)->Ok_0;
                    assert(spec_parse_items(src, k) == Ok::<Seq<SpecParsedItem>, SpecError>(
                        rest,
                    ));
                    let item = SpecParsedItem {
                        value: SpecItem::Expression(chain.0),
                        start: pos_i,
                        end: spec_bytes_len(src.take(k)) as int,
                    };
                    assert(items == seq![item] + rest);
                    lemma_item_cons(item, rest);
                    crate::lexer::lemma_offset_step(src, i, k);
                    lemma_parsed_ranges_cover_source(src, k, rest);
                    assert(items.drop_first() == rest);
                },
                SpecLexeme::ExprEnd => {
                    assert(false);
                },
                SpecLexeme::Pipe => {
                    assert(false);
                },
            }
        },
    }
}

} // verus!

verus! {

/// The filter ranges of a chain are ordered and bounded: each filter's
/// range follows the previous one and stays within `[lo, hi)`.
pub open spec fn spec_filter_ranges_ordered(
    fs: Seq<SpecParsedFilter>,
    lo: int,
    hi: int,
) -> bool
    decreases fs.len(),
{
    if fs.len() == 0 {
        true
    } else {
        &&& lo <= fs[0].start <= fs[0].end <= hi
        &&& spec_filter_ranges_ordered(fs.drop_first(), fs[0].end, hi)
    }
}

/// The filters of one expression carry ordered, non-overlapping byte
/// ranges lying between the cursor that opened the chain and the cursor
/// after the closing brace.
pub proof fn lemma_expression_filter_ranges(
    src: Seq<char>,
    i: int,
    start_pos: int,
    first: bool,
    fs: Seq<SpecParsedFilter>,
    k: int,
)
    requires
        0 <= i <= src.len(),
        spec_parse_filters(src, i, start_pos, first) == Ok::<
            (Seq<SpecParsedFilter>, int),
            SpecError,
        >((fs, k)) || spec_parse_filters_sep(src, i, start_pos) == Ok::<
            (Seq<SpecParsedFilter>, int),
            SpecError,
        >((fs, k)),
    ensures
        spec_filter_ranges_ordered(
            fs,
            spec_bytes_len(src.take(i)) as int,
            spec_bytes_len(src.take(k)) as int,
        ),
        i <= k <= src.len(),
    decreases src.len() - i, 2int,
{
    lemma_next_lexeme_progress(src, i, true);
    lemma_parse_filters_bounds(src, i, start_pos, first);
    let pos_i = spec_bytes_len(src.take(i)) as int;
    match spec_next_lexeme(src, i, true) {
        Option::None => {
            assert(false);
        },
        Option::Some((lx, j, _)) => {
            if spec_parse_filters(src, i, start_pos, first) == Ok::<
                (Seq<SpecParsedFilter>, int),
                SpecError,
            >((fs, k)) {
                match lx {
                    SpecLexeme::Raw(cs) => {
                        let rest = spec_parse_filters_sep(src, j, start_pos)->Ok_0;
                        assert(spec_parse_filters_sep(src, j, start_pos) == Ok::<
                            (Seq<SpecParsedFilter>, int),
                            SpecError,
                        >(rest));
                        let f = spec_parse_filter(cs, 0, pos_i)->Ok_0;
                        let pf = SpecParsedFilter {
                            value: f,
                            start: pos_i,
                            end: pos_i + seq_width(cs),
                        };
                        assert(fs == seq![pf] + rest.0 && k == rest.1);
                        lemma_filter_cons(pf, rest.0);
                        crate::lexer::lemma_scan_width(src, i, true);
                        crate::lexer::lemma_offset_step(src, i, j);
                        lemma_expression_filter_ranges(
                            src,
                            j,
                            start_pos,
                            false,
                            rest.0,
                            rest.1,
                        );
                        crate::lexer::lemma_offset_step(src, j, rest.1);
                        assert(fs.drop_first() == rest.0);
                    },
                    SpecLexeme::ExprEnd => {
                        assert(fs =~= Seq::<SpecParsedFilter>::empty());
                    },
                    SpecLexeme::Pipe => {
                        assert(false);
                    },
                    SpecLexeme::ExprStart => {
                        assert(false);
                    },
                }
            } else {
                match lx {
                    SpecLexeme::ExprEnd => {
                        assert(fs =~= Seq::<SpecParsedFilter>::empty());
                    },
                    SpecLexeme::Pipe => {
                        crate::lexer::lemma_offset_step(src, i, j);
                        lemma_expression_filter_ranges(src, j, start_pos, false, fs, k);
                        lemma_filter_ranges_widen_lo(
                            fs,
                            spec_bytes_len(src.take(j)) as int,
                            pos_i,
                            spec_bytes_len(src.take(k)) as int,
                        );
                    },
                    SpecLexeme::Raw(_) => {
                        assert(false);
                    },
                    SpecLexeme::ExprStart => {
                        assert(false);
                    },
                }
            }
        },
    }
}

/// Bounds may also widen downward.
proof fn lemma_filter_ranges_widen_lo(fs: Seq<SpecParsedFilter>, lo: int, lo2: int, hi: int)
    requires
        spec_filter_ranges_ordered(fs, lo, hi),
        lo2 <= lo,
    ensures
        spec_filter_ranges_ordered(fs, lo2, hi),
{
    if fs.len() > 0 {
    }
}

} // verus!
