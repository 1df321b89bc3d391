//! The string filters: literal replacement (leftmost-first,
//! non-overlapping), trimming, padding, ASCII projection, and the trusted
//! wrappers for Unicode case mapping and transliteration.  Everything works
//! over the characters of the value; byte offsets play no role here.

use vstd::prelude::*;

use crate::chars::spec_is_space;

verus! {

/// `t` occurs in `s` at position `i`.
pub open spec fn spec_match_at(s: Seq<char>, t: Seq<char>, i: int) -> bool {
    &&& 0 <= i
    &&& i + t.len() <= s.len()
    &&& s.subrange(i, i + t.len()) == t
}

/// The first position at or after `i` where `t` occurs in `s`; the length of
/// `s` when it occurs nowhere (note an empty `t` occurs everywhere).
pub open spec fn spec_find_sub(s: Seq<char>, t: Seq<char>, i: int) -> int
    decreases s.len() - i,
    when 0 <= i <= s.len()
{
    if spec_match_at(s, t, i) {
        i
    } else if i < s.len() {
        spec_find_sub(s, t, i + 1)
    } else {
        i
    }
}

pub proof fn lemma_find_sub(s: Seq<char>, t: Seq<char>, i: int)
    requires
        0 <= i <= s.len(),
    ensures
        i <= spec_find_sub(s, t, i) <= s.len(),
        spec_match_at(s, t, spec_find_sub(s, t, i)) || spec_find_sub(s, t, i) == s.len(),
        forall|j: int| i <= j < spec_find_sub(s, t, i) ==> !spec_match_at(s, t, j),
    decreases s.len() - i,
{
    if !spec_match_at(s, t, i) && i < s.len() {
        lemma_find_sub(s, t, i + 1);
    }
}

/// `s` with the leftmost occurrence of `t` (if any) replaced by `r`.
pub open spec fn spec_replace_first(s: Seq<char>, t: Seq<char>, r: Seq<char>) -> Seq<char> {
    let k = spec_find_sub(s, t, 0);
    if spec_match_at(s, t, k) {
        s.take(k) + r + s.skip(k + t.len())
    } else {
        s
    }
}

/// `s` with every occurrence of `t` from position `i` on replaced by `r`,
/// leftmost first, without overlapping.  An empty `t` occurs before every
/// character and at the end.
pub open spec fn spec_replace_all_from(
    s: Seq<char>,
    t: Seq<char>,
    r: Seq<char>,
    i: int,
) -> Seq<char>
    decreases s.len() - i,
    when 0 <= i <= s.len()
    via spec_replace_all_from_decreases
{
    if t.len() == 0 {
        if i < s.len() {
            r + seq![s[i]] + spec_replace_all_from(s, t, r, i + 1)
        } else {
            r
        }
    } else {
        let k = spec_find_sub(s, t, i);
        if spec_match_at(s, t, k) {
            s.subrange(i, k) + r + spec_replace_all_from(s, t, r, k + t.len())
        } else {
            s.skip(i)
        }
    }
}

#[via_fn]
proof fn spec_replace_all_from_decreases(s: Seq<char>, t: Seq<char>, r: Seq<char>, i: int) {
    lemma_find_sub(s, t, i);
}

/// `s` with every occurrence of `t` replaced by `r`.
pub open spec fn spec_replace_all(s: Seq<char>, t: Seq<char>, r: Seq<char>) -> Seq<char> {
    spec_replace_all_from(s, t, r, 0)
}

/// The first position at or after `i` where `t` occurs in `v`, or `None`.
pub fn find_sub(v: &Vec<char>, t: &Vec<char>, i: usize) -> (r: Option<usize>)
    requires
        i <= v@.len(),
    ensures
        ({
            let k = spec_find_sub(v@, t@, i as int);
            r == if spec_match_at(v@, t@, k) {
                Some(k as usize)
            } else {
                None::<usize>
            }
        }),
{
    proof {
        lemma_find_sub(v@, t@, i as int);
    }
    let mut k = i;
    loop
        invariant
            i <= k <= v@.len(),
            spec_find_sub(v@, t@, i as int) == spec_find_sub(v@, t@, k as int),
        ensures
            k == spec_find_sub(v@, t@, i as int),
        decreases v@.len() - k,
    {
        if matches_at(v, t, k) {
            proof {
                assert(spec_find_sub(v@, t@, k as int) == k);
            }
            break ;
        }
        if k == v.len() {
            break ;
        }
        k = k + 1;
    }
    if matches_at(v, t, k) {
        Some(k)
    } else {
        None
    }
}

/// `t` occurs in `v` at position `k`.
fn matches_at(v: &Vec<char>, t: &Vec<char>, k: usize) -> (r: bool)
    requires
        k <= v@.len(),
    ensures
        r == spec_match_at(v@, t@, k as int),
{
    if t.len() > v.len() - k {
        return false;
    }
    let mut j: usize = 0;
    while j < t.len()
        invariant
            0 <= j <= t@.len(),
            k + t@.len() <= v@.len(),
            v@.len() <= usize::MAX,
            forall|x: int| 0 <= x < j ==> v@[k + x] == t@[x],
        decreases t@.len() - j,
    {
        if v[k + j] != t[j] {
            assert(v@.subrange(k as int, k + t@.len())[j as int] != t@[j as int]);
            return false;
        }
        j = j + 1;
    }
    proof {
        assert(v@.subrange(k as int, k + t@.len()) =~= t@);
    }
    true
}

/// Appends `v[a..b)` to `out`.
pub fn push_range(out: &mut Vec<char>, v: &Vec<char>, a: usize, b: usize)
    requires
        a <= b <= v@.len(),
    ensures
        final(out)@ == old(out)@ + v@.subrange(a as int, b as int),
{
    let mut i = a;
    proof {
        assert(old(out)@ + v@.subrange(a as int, a as int) =~= old(out)@);
    }
    while i < b
        invariant
            a <= i <= b <= v@.len(),
            out@ == old(out)@ + v@.subrange(a as int, i as int),
        decreases b - i,
    {
        out.push(v[i]);
        proof {
            assert(old(out)@ + v@.subrange(a as int, i + 1) =~= (old(out)@ + v@.subrange(
                a as int,
                i as int,
            )).push(v@[i as int]));
        }
        i = i + 1;
    }
}

/// `v` with the leftmost occurrence of `t` (if any) replaced by `r`.
pub fn replace_first(v: &Vec<char>, t: &Vec<char>, r: &Vec<char>) -> (out: Vec<char>)
    ensures
        out@ == spec_replace_first(v@, t@, r@),
{
    let mut out: Vec<char> = Vec::new();
    let n = v.len();
    match find_sub(v, t, 0) {
        Some(k) => {
            push_range(&mut out, v, 0, k);
            push_range(&mut out, r, 0, r.len());
            push_range(&mut out, v, k + t.len(), n);
            proof {
                let kk = k as int;
                assert(v@.take(kk) =~= v@.subrange(0, kk));
                assert(r@.subrange(0, r@.len() as int) =~= r@);
                assert(v@.skip(kk + t@.len()) =~= v@.subrange(kk + t@.len(), v@.len() as int));
                assert(out@ =~= v@.take(kk) + r@ + v@.skip(kk + t@.len()));
            }
        },
        None => {
            push_range(&mut out, v, 0, v.len());
            proof {
                assert(out@ =~= v@);
            }
        },
    }
    out
}

/// `v` with every occurrence of `t` replaced by `r`, leftmost first,
/// without overlapping.
pub fn replace_all(v: &Vec<char>, t: &Vec<char>, r: &Vec<char>) -> (out: Vec<char>)
    ensures
        out@ == spec_replace_all(v@, t@, r@),
{
    let mut out: Vec<char> = Vec::new();
    let mut cur: usize = 0;
    let total = v.len();
    if t.len() == 0 {
        while cur < total
            invariant
                total == v@.len(),
                0 <= cur <= v@.len(),
                spec_replace_all(v@, t@, r@) == out@ + spec_replace_all_from(
                    v@,
                    t@,
                    r@,
                    cur as int,
                ),
                t@.len() == 0,
            decreases v@.len() - cur,
        {
            push_range(&mut out, r, 0, r.len());
            out.push(v[cur]);
            proof {
                assert(r@.subrange(0, r@.len() as int) =~= r@);
                assert(spec_replace_all_from(v@, t@, r@, cur as int) == r@ + seq![v@[cur as int]]
                    + spec_replace_all_from(v@, t@, r@, cur + 1));
                assert(out@ =~= (out@.subrange(
                    0,
                    out@.len() - r@.len() - 1,
                ) + r@ + seq![v@[cur as int]]));
            }
            cur = cur + 1;
        }
        push_range(&mut out, r, 0, r.len());
        proof {
            assert(r@.subrange(0, r@.len() as int) =~= r@);
        }
    } else {
        loop
            invariant
                0 <= cur <= v@.len(),
                v@.len() <= usize::MAX,
                t@.len() > 0,
                spec_replace_all(v@, t@, r@) == out@ + spec_replace_all_from(
                    v@,
                    t@,
                    r@,
                    cur as int,
                ),
            ensures
                cur == v@.len() || !spec_match_at(v@, t@, spec_find_sub(v@, t@, cur as int)),
                out@ + v@.subrange(cur as int, v@.len() as int) == spec_replace_all(v@, t@, r@),
            decreases v@.len() - cur,
        {
            proof {
                lemma_find_sub(v@, t@, cur as int);
            }
            match find_sub(v, t, cur) {
                Some(k) => {
                    push_range(&mut out, v, cur, k);
                    push_range(&mut out, r, 0, r.len());
                    proof {
                        assert(r@.subrange(0, r@.len() as int) =~= r@);
                    }
                    cur = k + t.len();
                },
                None => {
                    proof {
                        assert(spec_replace_all_from(v@, t@, r@, cur as int) == v@.skip(
                            cur as int,
                        ));
                        assert(v@.skip(cur as int) =~= v@.subrange(cur as int, v@.len() as int));
                    }
                    break ;
                },
            }
        }
        push_range(&mut out, v, cur, v.len());
    }
    proof {
        if t@.len() == 0 && !(cur < v@.len())  {
            assert(spec_replace_all_from(v@, t@, r@, cur as int) == r@);
        }
    }
    out
}

/// `v` when it is non-empty, `r` otherwise.
pub fn replace_empty(v: &Vec<char>, r: &Vec<char>) -> (out: Vec<char>)
    ensures
        out@ == if v@.len() == 0 {
            r@
        } else {
            v@
        },
{
    let mut out: Vec<char> = Vec::new();
    if v.len() == 0 {
        push_range(&mut out, r, 0, r.len());
        proof {
            assert(out@ =~= r@);
        }
    } else {
        push_range(&mut out, v, 0, v.len());
        proof {
            assert(out@ =~= v@);
        }
    }
    out
}

/// First index of `s` that does not hold white space, scanning from `i`.
pub open spec fn spec_skip_spaces(s: Seq<char>, i: int) -> int
    decreases s.len() - i,
    when 0 <= i <= s.len()
{
    if i < s.len() && spec_is_space(s[i]) {
        spec_skip_spaces(s, i + 1)
    } else {
        i
    }
}

pub proof fn lemma_skip_spaces(s: Seq<char>, i: int)
    requires
        0 <= i <= s.len(),
    ensures
        i <= spec_skip_spaces(s, i) <= s.len(),
    decreases s.len() - i,
{
    if i < s.len() && spec_is_space(s[i]) {
        lemma_skip_spaces(s, i + 1);
    }
}

/// Index just past the last character of `s.take(j)` that is not white
/// space, scanning down from `j`.
pub open spec fn spec_trim_hi(s: Seq<char>, j: int) -> int
    decreases j,
    when 0 <= j <= s.len()
{
    if j > 0 && spec_is_space(s[j - 1]) {
        spec_trim_hi(s, j - 1)
    } else {
        j
    }
}

pub proof fn lemma_trim_hi(s: Seq<char>, j: int)
    requires
        0 <= j <= s.len(),
    ensures
        0 <= spec_trim_hi(s, j) <= j,
    decreases j,
{
    if j > 0 && spec_is_space(s[j - 1]) {
        lemma_trim_hi(s, j - 1);
    }
}

/// `s` without leading and trailing Unicode white space.
pub open spec fn spec_trim(s: Seq<char>) -> Seq<char> {
    let a = spec_skip_spaces(s, 0);
    let b = spec_trim_hi(s, s.len() as int);
    if a <= b {
        s.subrange(a, b)
    } else {
        Seq::empty()
    }
}

/// `v` without leading and trailing Unicode white space.
pub fn trim(v: &Vec<char>) -> (out: Vec<char>)
    ensures
        out@ == spec_trim(v@),
{
    let mut a: usize = 0;
    while a < v.len() && crate::chars::is_space(v[a])
        invariant
            0 <= a <= v@.len(),
            spec_skip_spaces(v@, 0) == spec_skip_spaces(v@, a as int),
        decreases v@.len() - a,
    {
        a = a + 1;
    }
    let mut b: usize = v.len();
    while b > 0 && crate::chars::is_space(v[b - 1])
        invariant
            0 <= b <= v@.len(),
            spec_trim_hi(v@, v@.len() as int) == spec_trim_hi(v@, b as int),
        decreases b,
    {
        b = b - 1;
    }
    proof {
        assert(spec_skip_spaces(v@, a as int) == a);
        assert(spec_trim_hi(v@, b as int) == b);
    }
    let mut out: Vec<char> = Vec::new();
    if a <= b {
        push_range(&mut out, v, a, b);
        proof {
            assert(out@ =~= v@.subrange(a as int, b as int));
        }
    } else {
        proof {
            assert(out@ =~= Seq::<char>::empty());
        }
    }
    out
}

/// The characters of `s` whose code points are below 128, in order.
pub open spec fn spec_keep_ascii(s: Seq<char>) -> Seq<char>
    decreases s.len(),
{
    if s.len() == 0 {
        Seq::empty()
    } else {
        spec_keep_ascii(s.drop_last()) + if (s.last() as u32) < 128 {
            seq![s.last()]
        } else {
            Seq::empty()
        }
    }
}

/// `v` with every character at or above code point 128 removed.
pub fn remove_non_ascii(v: &Vec<char>) -> (out: Vec<char>)
    ensures
        out@ == spec_keep_ascii(v@),
{
    let mut out: Vec<char> = Vec::new();
    let mut i: usize = 0;
    proof {
        assert(v@.take(0) =~= Seq::<char>::empty());
    }
    while i < v.len()
        invariant
            0 <= i <= v@.len(),
            out@ == spec_keep_ascii(v@.take(i as int)),
        decreases v@.len() - i,
    {
        let c = v[i];
        proof {
            assert(v@.take(i + 1).drop_last() =~= v@.take(i as int));
            assert(v@.take(i + 1).last() == v@[i as int]);
        }
        if (c as u32) < 128 {
            out.push(c);
            proof {
                assert(out@ =~= spec_keep_ascii(v@.take(i as int)) + seq![v@[i as int]]);
            }
        } else {
            proof {
                assert(spec_keep_ascii(v@.take(i as int)) + Seq::<char>::empty() =~= out@);
            }
        }
        i = i + 1;
    }
    proof {
        assert(v@.take(v@.len() as int) =~= v@);
    }
    out
}

/// `s` left-padded with the prefix of `p` that its length leaves free:
/// the result is `p[0 .. p.len() - s.len()] + s` when `p` is longer than
/// `s`, and `s` unchanged otherwise.
pub open spec fn spec_left_pad(s: Seq<char>, p: Seq<char>) -> Seq<char> {
    if s.len() >= p.len() {
        s
    } else {
        p.take(p.len() - s.len()) + s
    }
}

/// `s` right-padded with the tail of `p` that its length leaves free.
pub open spec fn spec_right_pad(s: Seq<char>, p: Seq<char>) -> Seq<char> {
    if s.len() >= p.len() {
        s
    } else {
        s + p.skip(s.len() as int)
    }
}

pub fn left_pad(v: &Vec<char>, p: &Vec<char>) -> (out: Vec<char>)
    ensures
        out@ == spec_left_pad(v@, p@),
{
    let mut out: Vec<char> = Vec::new();
    if v.len() >= p.len() {
        push_range(&mut out, v, 0, v.len());
        proof {
            assert(out@ =~= v@);
        }
    } else {
        push_range(&mut out, p, 0, p.len() - v.len());
        push_range(&mut out, v, 0, v.len());
        proof {
            assert(p@.take(p@.len() - v@.len()) =~= p@.subrange(0, p@.len() - v@.len()));
            assert(out@ =~= p@.take(p@.len() - v@.len()) + v@);
        }
    }
    out
}

pub fn right_pad(v: &Vec<char>, p: &Vec<char>) -> (out: Vec<char>)
    ensures
        out@ == spec_right_pad(v@, p@),
{
    let mut out: Vec<char> = Vec::new();
    if v.len() >= p.len() {
        push_range(&mut out, v, 0, v.len());
        proof {
            assert(out@ =~= v@);
        }
    } else {
        push_range(&mut out, v, 0, v.len());
        push_range(&mut out, p, v.len(), p.len());
        proof {
            assert(p@.skip(v@.len() as int) =~= p@.subrange(v@.len() as int, p@.len() as int));
            assert(out@ =~= v@ + p@.skip(v@.len() as int));
        }
    }
    out
}

/// What `str::to_lowercase` returns: a function of the characters alone.
pub uninterp spec fn spec_lower(s: Seq<char>) -> Seq<char>;

/// What `str::to_uppercase` returns: a function of the characters alone.
pub uninterp spec fn spec_upper(s: Seq<char>) -> Seq<char>;

/// What `unidecode::unidecode` returns: a function of the characters alone.
pub uninterp spec fn spec_transliterate(s: Seq<char>) -> Seq<char>;

/// Unicode-aware lowercasing.
///
/// Relies on `str::to_lowercase`: the result depends on the characters of
/// the input alone.
#[verifier::external_body]
pub fn to_lowercase(s: &str) -> (r: String)
    ensures
        r@ == spec_lower(s@),
{
    s.to_lowercase()
}

/// Unicode-aware uppercasing.
///
/// Relies on `str::to_uppercase`: the result depends on the characters of
/// the input alone.
#[verifier::external_body]
pub fn to_uppercase(s: &str) -> (r: String)
    ensures
        r@ == spec_upper(s@),
{
    s.to_uppercase()
}

/// Best-effort transliteration to ASCII.
///
/// Relies on `unidecode::unidecode`: the result depends on the characters of
/// the input alone, and holds only ASCII characters.
#[verifier::external_body]
pub fn to_ascii(s: &str) -> (r: String)
    ensures
        r@ == spec_transliterate(s@),
        forall|i: int| 0 <= i < r@.len() ==> (r@[i] as u32) < 128,
{
    unidecode::unidecode(s)
}

} // verus!
