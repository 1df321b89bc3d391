//! Rendering helpers for caret diagnostics: byte offsets become character
//! columns only here, at render time, so multi-byte characters align.

use vstd::prelude::*;

use crate::chars::{chars_of, push_char, spec_char_byte_len, string_of};

verus! {

/// How many leading characters of `s` lie entirely within the first
/// `cutoff` bytes.
pub open spec fn spec_columns(s: Seq<char>, cutoff: int) -> nat
    decreases s.len(),
{
    if s.len() == 0 {
        0
    } else if spec_char_byte_len(s[0]) <= cutoff {
        1 + spec_columns(s.drop_first(), cutoff - spec_char_byte_len(s[0]))
    } else {
        0
    }
}

/// The character columns a byte range covers: the column where the range
/// starts, and how many columns it spans — at least one, so an empty
/// range still gets a caret.
pub fn highlight_columns(source: &str, start: usize, end: usize) -> (r: (usize, usize))
    requires
        start <= end,
    ensures
        r.0 == spec_columns(source@, start as int),
        r.1 == if spec_columns(source@, end as int) > spec_columns(source@, start as int) {
            (spec_columns(source@, end as int) - spec_columns(source@, start as int)) as nat
        } else {
            1nat
        },
{
    let chars = chars_of(source);
    let before = columns_within(&chars, start);
    let within = columns_within(&chars, end);
    let markers = if within > before {
        within - before
    } else {
        1
    };
    (before, markers)
}

/// Counts the characters that fit within the first `cutoff` bytes.
fn columns_within(chars: &Vec<char>, cutoff: usize) -> (n: usize)
    ensures
        n == spec_columns(chars@, cutoff as int),
{
    let mut n: usize = 0;
    let mut remaining = cutoff;
    let mut i: usize = 0;
    proof {
        assert(chars@.skip(0) =~= chars@);
    }
    while i < chars.len() && crate::chars::char_byte_len(chars[i]) <= remaining
        invariant
            0 <= i <= chars@.len(),
            n == i,
            i + remaining <= cutoff + 0,
            spec_columns(chars@, cutoff as int) == i + spec_columns(
                chars@.skip(i as int),
                remaining as int,
            ),
        decreases chars@.len() - i,
    {
        proof {
            assert(chars@.skip(i as int)[0] == chars@[i as int]);
            assert(chars@.skip(i as int).drop_first() =~= chars@.skip(i + 1));
        }
        remaining = remaining - crate::chars::char_byte_len(chars[i]);
        n = n + 1;
        i = i + 1;
    }
    proof {
        if i < chars@.len() {
            assert(chars@.skip(i as int)[0] == chars@[i as int]);
        } else {
            assert(chars@.skip(i as int) =~= Seq::<char>::empty());
        }
    }
    n
}

/// Columns only grow as the byte cutoff grows.
pub proof fn lemma_columns_monotonic(s: Seq<char>, a: int, b: int)
    requires
        a <= b,
    ensures
        spec_columns(s, a) <= spec_columns(s, b) <= s.len(),
    decreases s.len(),
{
    if s.len() > 0 && spec_char_byte_len(s[0]) <= b {
        lemma_columns_monotonic(s.drop_first(), a - spec_char_byte_len(s[0]), b
            - spec_char_byte_len(s[0]));
    }
}

/// The characters of `source` covered by the byte range `[start, end)`:
/// those that lie entirely within it.
pub open spec fn spec_byte_slice(s: Seq<char>, start: int, end: int) -> Seq<char> {
    let lo = spec_columns(s, start) as int;
    let hi = spec_columns(s, end) as int;
    if lo <= hi {
        s.subrange(lo, hi)
    } else {
        Seq::empty()
    }
}

/// The text the byte range `[start, end)` covers.
pub fn slice_by_byte_range(source: &str, start: usize, end: usize) -> (r: String)
    requires
        start <= end,
    ensures
        r@ == spec_byte_slice(source@, start as int, end as int),
{
    proof {
        lemma_columns_monotonic(source@, start as int, end as int);
    }
    let chars = chars_of(source);
    let lo = columns_within(&chars, start);
    let hi = columns_within(&chars, end);
    let mut out: Vec<char> = Vec::new();
    crate::strings::push_range(&mut out, &chars, lo, hi);
    string_of(&out)
}

/// `count` copies of `fill`.
pub fn repeat_char(fill: char, count: usize) -> (r: String)
    ensures
        r@.len() == count,
        forall|i: int| 0 <= i < count ==> r@[i] == fill,
{
    let mut out = String::new();
    let mut i: usize = 0;
    while i < count
        invariant
            0 <= i <= count,
            out@.len() == i,
            forall|k: int| 0 <= k < i ==> out@[k] == fill,
        decreases count - i,
    {
        push_char(&mut out, fill);
        i = i + 1;
    }
    out
}

} // verus!
