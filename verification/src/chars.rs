//! Character-level helpers shared by the lexer, the parser and the filters:
//! UTF-8 byte lengths (all source positions are byte offsets), decimal
//! rendering of counters, Unicode white space, and the small bridges
//! between `String` and `Vec<char>` that the rest of the crate is built on.

use vstd::prelude::*;
use vstd::string::StringExecFns;

verus! {

/// Number of bytes the UTF-8 encoding of `c` occupies.
pub open spec fn spec_char_byte_len(c: char) -> nat {
    if (c as u32) < 0x80 {
        1
    } else if (c as u32) < 0x800 {
        2
    } else if (c as u32) < 0x10000 {
        3
    } else {
        4
    }
}

/// Total UTF-8 byte length of a character sequence.
pub open spec fn spec_bytes_len(s: Seq<char>) -> nat
    decreases s.len(),
{
    if s.len() == 0 {
        0
    } else {
        spec_char_byte_len(s[0]) + spec_bytes_len(s.drop_first())
    }
}

pub fn char_byte_len(c: char) -> (n: usize)
    ensures
        n == spec_char_byte_len(c),
        1 <= n <= 4,
{
    let u = c as u32;
    if u < 0x80 {
        1
    } else if u < 0x800 {
        2
    } else if u < 0x10000 {
        3
    } else {
        4
    }
}

pub proof fn lemma_bytes_len_push(s: Seq<char>, c: char)
    ensures
        spec_bytes_len(s.push(c)) == spec_bytes_len(s) + spec_char_byte_len(c),
    decreases s.len(),
{
    assert(s.push(c)[0] == if s.len() == 0 { c } else { s[0] });
    if s.len() == 0 {
        assert(s.push(c).drop_first() =~= Seq::<char>::empty());
        assert(spec_bytes_len(s.push(c)) == spec_char_byte_len(c) + spec_bytes_len(
            s.push(c).drop_first(),
        ));
    } else {
        assert(s.push(c).drop_first() =~= s.drop_first().push(c));
        lemma_bytes_len_push(s.drop_first(), c);
        assert(spec_bytes_len(s.push(c)) == spec_char_byte_len(s[0]) + spec_bytes_len(
            s.drop_first().push(c),
        ));
        assert(spec_bytes_len(s) == spec_char_byte_len(s[0]) + spec_bytes_len(s.drop_first()));
    }
}


/// Splitting a character sequence splits its byte length.
pub proof fn lemma_bytes_len_split(s: Seq<char>, k: int)
    requires
        0 <= k <= s.len(),
    ensures
        spec_bytes_len(s) == spec_bytes_len(s.take(k)) + spec_bytes_len(s.skip(k)),
    decreases k,
{
    if k == 0 {
        assert(s.take(0) =~= Seq::<char>::empty());
        assert(s.skip(0) =~= s);
    } else {
        lemma_bytes_len_split(s, k - 1);
        assert(s.take(k) =~= s.take(k - 1).push(s[k - 1]));
        lemma_bytes_len_push(s.take(k - 1), s[k - 1]);
        assert(s.skip(k - 1)[0] == s[k - 1]);
        assert(s.skip(k - 1).drop_first() =~= s.skip(k));
        assert(spec_bytes_len(s.skip(k - 1)) == spec_char_byte_len(s[k - 1]) + spec_bytes_len(
            s.skip(k),
        ));
    }
}

/// A proper prefix covers strictly fewer bytes than the whole.
pub proof fn lemma_bytes_len_strict(s: Seq<char>, i: int)
    requires
        0 <= i < s.len(),
    ensures
        spec_bytes_len(s.take(i)) < spec_bytes_len(s),
{
    lemma_bytes_len_split(s, i);
    assert(s.skip(i)[0] == s[i]);
    assert(s.skip(i).len() > 0);
    assert(spec_bytes_len(s.skip(i)) == spec_char_byte_len(s.skip(i)[0]) + spec_bytes_len(
        s.skip(i).drop_first(),
    ));
}

/// The characters of `s`, in order.
///
/// Relies on `str::chars`: iterating a string slice yields exactly the
/// characters of the string.  The total UTF-8 length of those characters
/// is the byte length of `s`, which never reaches `usize::MAX` (a string
/// is at most `isize::MAX` bytes long).
#[verifier::external_body]
pub fn chars_of(s: &str) -> (r: Vec<char>)
    ensures
        r@ == s@,
        spec_bytes_len(r@) < usize::MAX,
{
    s.chars().collect()
}

/// The total UTF-8 byte length of the characters of `v`.
pub fn bytes_len_of(v: &Vec<char>) -> (n: usize)
    requires
        spec_bytes_len(v@) <= usize::MAX,
    ensures
        n == spec_bytes_len(v@),
{
    let mut n: usize = 0;
    let mut i: usize = 0;
    proof {
        assert(v@.take(0) =~= Seq::<char>::empty());
    }
    while i < v.len()
        invariant
            0 <= i <= v@.len(),
            n == spec_bytes_len(v@.take(i as int)),
            spec_bytes_len(v@) <= usize::MAX,
        decreases v@.len() - i,
    {
        proof {
            lemma_bytes_len_push(v@.take(i as int), v@[i as int]);
            assert(v@.take(i + 1) =~= v@.take(i as int).push(v@[i as int]));
            lemma_bytes_len_split(v@, i + 1);
        }
        n = n + char_byte_len(v[i]);
        i = i + 1;
    }
    proof {
        assert(v@.take(v@.len() as int) =~= v@);
    }
    n
}

/// Appends one character to a string.
///
/// Relies on `String::push`: it appends the given character to the end of
/// the string.
#[verifier::external_body]
pub fn push_char(s: &mut String, c: char)
    ensures
        final(s)@ == old(s)@.push(c),
{
    s.push(c);
}

/// Builds a `String` holding exactly the characters of `v`.
pub fn string_of(v: &Vec<char>) -> (s: String)
    ensures
        s@ == v@,
{
    let mut s = String::new();
    let mut i: usize = 0;
    while i < v.len()
        invariant
            i <= v.len(),
            s@ == v@.take(i as int),
        decreases v.len() - i,
    {
        push_char(&mut s, v[i]);
        i = i + 1;
        assert(v@.take(i as int) =~= v@.take(i - 1).push(v@[i - 1]));
    }
    assert(v@.take(v@.len() as int) =~= v@);
    s
}

/// The decimal digit character for a value below ten.
pub open spec fn spec_digit_char(d: nat) -> char {
    if d == 0 {
        '0'
    } else if d == 1 {
        '1'
    } else if d == 2 {
        '2'
    } else if d == 3 {
        '3'
    } else if d == 4 {
        '4'
    } else if d == 5 {
        '5'
    } else if d == 6 {
        '6'
    } else if d == 7 {
        '7'
    } else if d == 8 {
        '8'
    } else {
        '9'
    }
}

/// Decimal rendering of a natural number, without leading zeros
/// (except for the number zero itself).
pub open spec fn spec_decimal(n: nat) -> Seq<char>
    decreases n,
{
    if n < 10 {
        seq![spec_digit_char(n)]
    } else {
        spec_decimal(n / 10).push(spec_digit_char(n % 10))
    }
}

fn digit_char(d: u64) -> (c: char)
    requires
        d < 10,
    ensures
        c == spec_digit_char(d as nat),
{
    if d == 0 {
        '0'
    } else if d == 1 {
        '1'
    } else if d == 2 {
        '2'
    } else if d == 3 {
        '3'
    } else if d == 4 {
        '4'
    } else if d == 5 {
        '5'
    } else if d == 6 {
        '6'
    } else if d == 7 {
        '7'
    } else if d == 8 {
        '8'
    } else {
        '9'
    }
}

/// Decimal rendering of `n` as characters.
pub fn decimal_chars(n: u64) -> (r: Vec<char>)
    ensures
        r@ == spec_decimal(n as nat),
    decreases n,
{
    if n < 10 {
        let mut r: Vec<char> = Vec::new();
        r.push(digit_char(n));
        assert(r@ =~= seq![spec_digit_char(n as nat)]);
        r
    } else {
        let mut r = decimal_chars(n / 10);
        r.push(digit_char(n % 10));
        r
    }
}

/// Decimal rendering of `n` as a `String`.
pub fn decimal_string(n: u64) -> (s: String)
    ensures
        s@ == spec_decimal(n as nat),
{
    let v = decimal_chars(n);
    string_of(&v)
}

/// `a + b`.
pub fn concat2(a: &str, b: &str) -> (r: String)
    ensures
        r@ == a@ + b@,
{
    let mut out = String::new();
    out.append(a);
    out.append(b);
    proof {
        assert(out@ =~= a@ + b@);
    }
    out
}

/// `a + b + c`.
pub fn concat3(a: &str, b: &str, c: &str) -> (r: String)
    ensures
        r@ == a@ + b@ + c@,
{
    let mut out = String::new();
    out.append(a);
    out.append(b);
    out.append(c);
    proof {
        assert(out@ =~= a@ + b@ + c@);
    }
    out
}

/// `a + b + c + d + e`.
pub fn concat5(a: &str, b: &str, c: &str, d: &str, e: &str) -> (r: String)
    ensures
        r@ == a@ + b@ + c@ + d@ + e@,
{
    let mut out = String::new();
    out.append(a);
    out.append(b);
    out.append(c);
    out.append(d);
    out.append(e);
    proof {
        assert(out@ =~= a@ + b@ + c@ + d@ + e@);
    }
    out
}

/// The Unicode `White_Space` code points, as trimmed by the trim filter.
pub open spec fn spec_is_space(c: char) -> bool {
    ||| c == '\u{0009}'
    ||| c == '\u{000A}'
    ||| c == '\u{000B}'
    ||| c == '\u{000C}'
    ||| c == '\u{000D}'
    ||| c == '\u{0020}'
    ||| c == '\u{0085}'
    ||| c == '\u{00A0}'
    ||| c == '\u{1680}'
    ||| ('\u{2000}' <= c && c <= '\u{200A}')
    ||| c == '\u{2028}'
    ||| c == '\u{2029}'
    ||| c == '\u{202F}'
    ||| c == '\u{205F}'
    ||| c == '\u{3000}'
}

pub fn is_space(c: char) -> (r: bool)
    ensures
        r == spec_is_space(c),
{
    c == '\u{0009}' || c == '\u{000A}' || c == '\u{000B}' || c == '\u{000C}' || c == '\u{000D}'
        || c == '\u{0020}' || c == '\u{0085}' || c == '\u{00A0}' || c == '\u{1680}' || ('\u{2000}'
        <= c && c <= '\u{200A}') || c == '\u{2028}' || c == '\u{2029}' || c == '\u{202F}' || c
        == '\u{205F}' || c == '\u{3000}'
}

} // verus!
