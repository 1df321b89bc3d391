//! A positioned cursor over the characters of one pattern segment.
//!
//! Every character knows how many bytes of the *original* pattern source it
//! stands for: a character written through an escape sequence (`{{`, `}}`,
//! `|{`, `|}`, `||`) covers the two source bytes of that sequence.  This is
//! what lets every parse error carry an exact byte range into the source,
//! even after escapes have been resolved.

use vstd::prelude::*;

use crate::chars::{char_byte_len, chars_of, spec_char_byte_len, string_of};

verus! {

/// One logical character of a pattern segment.
///
/// `Raw` is a character written as itself; `Escaped` is a character written
/// as a two-character escape sequence (both characters of every escape
/// sequence are ASCII, so an escaped character always covers two source
/// bytes).
#[derive(Debug, PartialEq, Eq, Structural, Clone, Copy)]
pub enum Char {
    Raw(char),
    Escaped(char),
}

impl Char {
    /// The character this stands for.
    pub open spec fn spec_value(self) -> char {
        match self {
            Char::Raw(c) => c,
            Char::Escaped(c) => c,
        }
    }

    /// How many bytes of the original source this character covers.
    pub open spec fn spec_width(self) -> nat {
        match self {
            Char::Raw(c) => spec_char_byte_len(c),
            Char::Escaped(_) => 2,
        }
    }

    pub fn value(&self) -> (c: char)
        ensures
            c == self.spec_value(),
    {
        match self {
            Char::Raw(c) => *c,
            Char::Escaped(c) => *c,
        }
    }

    pub fn width(&self) -> (n: usize)
        ensures
            n == self.spec_width(),
            1 <= n <= 4,
    {
        match self {
            Char::Raw(c) => char_byte_len(*c),
            Char::Escaped(_) => 2,
        }
    }
}

/// The characters a segment stands for, escapes resolved.
pub open spec fn seq_values(s: Seq<Char>) -> Seq<char> {
    Seq::new(s.len(), |i: int| s[i].spec_value())
}

/// A plain character, written as itself.
pub open spec fn raw_char(c: char) -> Char {
    Char::Raw(c)
}

/// A plain (unescaped) segment standing for exactly the characters of `s`.
pub open spec fn raw_seq(s: Seq<char>) -> Seq<Char> {
    Seq::new(s.len(), |i: int| raw_char(s[i]))
}

/// The number of source bytes a segment covers.
pub open spec fn seq_width(s: Seq<Char>) -> nat
    decreases s.len(),
{
    if s.len() == 0 {
        0
    } else {
        s[0].spec_width() + seq_width(s.drop_first())
    }
}

pub proof fn lemma_seq_width_push(s: Seq<Char>, c: Char)
    ensures
        seq_width(s.push(c)) == seq_width(s) + c.spec_width(),
    decreases s.len(),
{
    assert(s.push(c)[0] == if s.len() == 0 {
        c
    } else {
        s[0]
    });
    if s.len() == 0 {
        assert(s.push(c).drop_first() =~= Seq::<Char>::empty());
        assert(seq_width(s.push(c)) == c.spec_width() + seq_width(s.push(c).drop_first()));
    } else {
        assert(s.push(c).drop_first() =~= s.drop_first().push(c));
        lemma_seq_width_push(s.drop_first(), c);
        assert(seq_width(s.push(c)) == s[0].spec_width() + seq_width(s.drop_first().push(c)));
        assert(seq_width(s) == s[0].spec_width() + seq_width(s.drop_first()));
    }
}

pub proof fn lemma_seq_width_take_succ(s: Seq<Char>, i: int)
    requires
        0 <= i < s.len(),
    ensures
        seq_width(s.take(i + 1)) == seq_width(s.take(i)) + s[i].spec_width(),
{
    assert(s.take(i + 1) =~= s.take(i).push(s[i]));
    lemma_seq_width_push(s.take(i), s[i]);
}

pub proof fn lemma_seq_width_skip_succ(s: Seq<Char>, i: int)
    requires
        0 <= i < s.len(),
    ensures
        seq_width(s.skip(i)) == s[i].spec_width() + seq_width(s.skip(i + 1)),
{
    assert(s.skip(i)[0] == s[i]);
    assert(s.skip(i).len() > 0);
    assert(s.skip(i).drop_first() =~= s.skip(i + 1));
}

/// A cursor over the characters of one segment, tracking the byte offset of
/// the next unread character within the original pattern source.
pub struct Reader {
    chars: Vec<Char>,
    index: usize,
    pos: usize,
}

impl Reader {
    /// All characters of the segment.
    pub closed spec fn spec_chars(self) -> Seq<Char> {
        self.chars@
    }

    /// How many characters have been consumed.
    pub closed spec fn spec_index(self) -> int {
        self.index as int
    }

    /// Byte offset of the next unread character.
    pub closed spec fn spec_position(self) -> int {
        self.pos as int
    }

    /// Byte offset just past the last character of the segment.
    pub open spec fn spec_end(self) -> int {
        self.spec_position() + seq_width(self.spec_chars().skip(self.spec_index()))
    }

    #[verifier::type_invariant]
    pub closed spec fn wf(self) -> bool {
        &&& self.index <= self.chars@.len()
        &&& self.pos + seq_width(self.chars@.skip(self.index as int)) <= usize::MAX
    }

    /// A reader over the characters of `s`, all unescaped, starting at
    /// byte offset zero.
    pub fn new(s: &str) -> (r: Reader)
        ensures
            r.spec_chars() == raw_seq(s@),
            r.spec_index() == 0,
            r.spec_position() == 0,
    {
        let plain = chars_of(s);
        let mut chars: Vec<Char> = Vec::new();
        let mut i: usize = 0;
        proof {
            assert(chars@ =~= raw_seq(plain@.take(0)));
        }
        while i < plain.len()
            invariant
                i <= plain@.len(),
                chars@ == raw_seq(plain@.take(i as int)),
                seq_width(chars@) == crate::chars::spec_bytes_len(plain@.take(i as int)),
                crate::chars::spec_bytes_len(plain@) <= usize::MAX,
            decreases plain.len() - i,
        {
            let ghost prev = chars@;
            chars.push(Char::Raw(plain[i]));
            proof {
                assert(plain@.take(i + 1) =~= plain@.take(i as int).push(plain@[i as int]));
                assert forall|j: int| 0 <= j < i + 1 implies raw_seq(plain@.take(i + 1))[j]
                    == prev.push(raw_char(plain@[i as int]))[j] by {
                    assert(raw_seq(plain@.take(i + 1))[j] == raw_char(plain@.take(i + 1)[j]));
                    if j < i {
                        assert(prev[j] == raw_char(plain@.take(i as int)[j]));
                    }
                }
                assert(raw_seq(plain@.take(i + 1)) =~= prev.push(raw_char(plain@[i as int])));
                lemma_seq_width_push(prev, Char::Raw(plain@[i as int]));
                crate::chars::lemma_bytes_len_push(plain@.take(i as int), plain@[i as int]);
            }
            i = i + 1;
        }
        proof {
            assert(plain@.take(plain@.len() as int) =~= plain@);
            assert(chars@.skip(0) =~= chars@);
        }
        assert(seq_width(chars@) <= usize::MAX);
        Reader { chars, index: 0, pos: 0 }
    }

    /// A reader over an already unescaped segment whose first character
    /// starts at byte offset `base` of the pattern source.
    pub fn from_segment(chars: Vec<Char>, base: usize) -> (r: Reader)
        requires
            base + seq_width(chars@) <= usize::MAX,
        ensures
            r.spec_chars() == chars@,
            r.spec_index() == 0,
            r.spec_position() == base,
    {
        proof {
            assert(chars@.skip(0) =~= chars@);
        }
        Reader { chars, index: 0, pos: base }
    }

    /// Byte offset of the next unread character.  (Also exposes the bounds
    /// every reader satisfies: the cursor stays inside the segment and all
    /// byte offsets fit in `usize`.)
    pub fn position(&self) -> (p: usize)
        ensures
            p == self.spec_position(),
            0 <= self.spec_index() <= self.spec_chars().len(),
            0 <= self.spec_position() <= self.spec_end() <= usize::MAX,
    {
        proof {
            use_type_invariant(self);
        }
        self.pos
    }

    /// Byte offset just past the end of the segment.
    pub fn end(&self) -> (p: usize)
        ensures
            p == self.spec_end(),
    {
        proof {
            use_type_invariant(self);
        }
        let mut p = self.pos;
        let mut i = self.index;
        while i < self.chars.len()
            invariant
                self.wf(),
                self.index <= i <= self.chars@.len(),
                p + seq_width(self.chars@.skip(i as int)) == self.spec_end(),
                p + seq_width(self.chars@.skip(i as int)) <= usize::MAX,
            decreases self.chars.len() - i,
        {
            proof {
                lemma_seq_width_skip_succ(self.chars@, i as int);
            }
            p = p + self.chars[i].width();
            i = i + 1;
        }
        assert(self.chars@.skip(self.chars@.len() as int) =~= Seq::<Char>::empty());
        p
    }

    /// The next character, without consuming it.
    pub fn peek(&self) -> (c: Option<Char>)
        ensures
            c == if self.spec_index() < self.spec_chars().len() {
                Some(self.spec_chars()[self.spec_index()])
            } else {
                None::<Char>
            },
            0 <= self.spec_index() <= self.spec_chars().len(),
            0 <= self.spec_position() <= self.spec_end() <= usize::MAX,
    {
        proof {
            use_type_invariant(self);
        }
        if self.index < self.chars.len() {
            Some(self.chars[self.index])
        } else {
            None
        }
    }

    /// The value of the next character, without consuming it.
    pub fn peek_value(&self) -> (c: Option<char>)
        ensures
            c == if self.spec_index() < self.spec_chars().len() {
                Some(self.spec_chars()[self.spec_index()].spec_value())
            } else {
                None::<char>
            },
            0 <= self.spec_index() <= self.spec_chars().len(),
            0 <= self.spec_position() <= self.spec_end() <= usize::MAX,
    {
        match self.peek() {
            Some(c) => Some(c.value()),
            None => None,
        }
    }

    /// Consumes and returns the next character.
    pub fn read(&mut self) -> (c: Option<Char>)
        ensures
            final(self).spec_chars() == old(self).spec_chars(),
            c == if old(self).spec_index() < old(self).spec_chars().len() {
                Some(old(self).spec_chars()[old(self).spec_index()])
            } else {
                None::<Char>
            },
            final(self).spec_index() == if old(self).spec_index() < old(
                self,
            ).spec_chars().len() {
                old(self).spec_index() + 1
            } else {
                old(self).spec_index()
            },
            final(self).spec_position() == if old(self).spec_index() < old(
                self,
            ).spec_chars().len() {
                old(self).spec_position() + old(self).spec_chars()[old(
                    self,
                ).spec_index()].spec_width()
            } else {
                old(self).spec_position()
            },
    {
        proof {
            use_type_invariant(&*self);
        }
        if self.index < self.chars.len() {
            let c = self.chars[self.index];
            proof {
                lemma_seq_width_skip_succ(self.chars@, self.index as int);
            }
            let w = c.width();
            self.index = self.index + 1;
            self.pos = self.pos + w;
            Some(c)
        } else {
            None
        }
    }

    /// Consumes and returns all remaining characters.
    pub fn read_to_end(&mut self) -> (v: Vec<Char>)
        ensures
            final(self).spec_chars() == old(self).spec_chars(),
            v@ == old(self).spec_chars().skip(old(self).spec_index()),
            final(self).spec_index() == final(self).spec_chars().len(),
            final(self).spec_position() == old(self).spec_end(),
    {
        proof {
            use_type_invariant(&*self);
        }
        let mut v: Vec<Char> = Vec::new();
        loop
            invariant
                self.spec_chars() == old(self).spec_chars(),
                old(self).spec_index() <= self.spec_index() <= self.spec_chars().len(),
                v@ == old(self).spec_chars().subrange(
                    old(self).spec_index(),
                    self.spec_index(),
                ),
                self.spec_end() == old(self).spec_end(),
            ensures
                self.spec_index() == self.spec_chars().len(),
            decreases self.spec_chars().len() - self.spec_index(),
        {
            proof {
                use_type_invariant(&*self);
            }
            let ghost pre = self.spec_index();
            match self.read() {
                Some(c) => {
                    proof {
                        lemma_seq_width_skip_succ(self.spec_chars(), pre);
                    }
                    v.push(c);
                    proof {
                        assert(old(self).spec_chars().subrange(old(self).spec_index(), pre + 1)
                            =~= old(self).spec_chars().subrange(old(self).spec_index(), pre).push(
                            old(self).spec_chars()[pre],
                        ));
                    }
                },
                None => {
                    break ;
                },
            }
        }
        proof {
            assert(v@ =~= old(self).spec_chars().skip(old(self).spec_index()));
            assert(self.spec_chars().skip(self.spec_chars().len() as int) =~= Seq::<
                Char,
            >::empty());
        }
        v
    }
}

/// The string the characters of `v` stand for.
pub fn join_values(v: &Vec<Char>) -> (s: String)
    ensures
        s@ == seq_values(v@),
{
    let mut plain: Vec<char> = Vec::new();
    let mut i: usize = 0;
    while i < v.len()
        invariant
            i <= v@.len(),
            plain@ == seq_values(v@.take(i as int)),
        decreases v.len() - i,
    {
        plain.push(v[i].value());
        proof {
            assert(seq_values(v@.take(i + 1)) =~= seq_values(v@.take(i as int)).push(
                v@[i as int].spec_value(),
            ));
        }
        i = i + 1;
    }
    proof {
        assert(v@.take(v@.len() as int) =~= v@);
    }
    string_of(&plain)
}

/// The first index at or after `i` whose character is `c`, or the length of
/// `s` when there is none.
pub open spec fn spec_find(s: Seq<Char>, i: int, c: char) -> int
    decreases s.len() - i,
{
    if 0 <= i < s.len() {
        if s[i].spec_value() == c {
            i
        } else {
            spec_find(s, i + 1, c)
        }
    } else {
        i
    }
}

pub proof fn lemma_spec_find(s: Seq<Char>, i: int, c: char)
    requires
        0 <= i <= s.len(),
    ensures
        i <= spec_find(s, i, c) <= s.len(),
        spec_find(s, i, c) < s.len() ==> s[spec_find(s, i, c)].spec_value() == c,
        forall|j: int| i <= j < spec_find(s, i, c) ==> s[j].spec_value() != c,
    decreases s.len() - i,
{
    if i < s.len() && s[i].spec_value() != c {
        lemma_spec_find(s, i + 1, c);
    }
}

/// The first index at or after `a` whose character is `c`, or the length of
/// the segment when there is none.
pub fn find_value(v: &Vec<Char>, a: usize, c: char) -> (r: usize)
    requires
        a <= v@.len(),
    ensures
        r == spec_find(v@, a as int, c),
{
    let mut i = a;
    while i < v.len()
        invariant
            a <= i <= v@.len(),
            spec_find(v@, a as int, c) == spec_find(v@, i as int, c),
        decreases v@.len() - i,
    {
        if v[i].value() == c {
            return i;
        }
        i = i + 1;
    }
    i
}

/// The characters `v[a..b)`, as their own vector.
pub fn slice_chars(v: &Vec<Char>, a: usize, b: usize) -> (r: Vec<Char>)
    requires
        a <= b <= v@.len(),
    ensures
        r@ == v@.subrange(a as int, b as int),
{
    let mut r: Vec<Char> = Vec::new();
    let mut i = a;
    proof {
        assert(r@ =~= v@.subrange(a as int, a as int));
    }
    while i < b
        invariant
            a <= i <= b <= v@.len(),
            r@ == v@.subrange(a as int, i as int),
        decreases b - i,
    {
        r.push(v[i]);
        proof {
            assert(v@.subrange(a as int, i + 1) =~= v@.subrange(a as int, i as int).push(
                v@[i as int],
            ));
        }
        i = i + 1;
    }
    r
}

/// Splitting a segment splits its byte width.
pub proof fn lemma_seq_width_split(s: Seq<Char>, k: int)
    requires
        0 <= k <= s.len(),
    ensures
        seq_width(s) == seq_width(s.take(k)) + seq_width(s.skip(k)),
    decreases k,
{
    if k == 0 {
        assert(s.take(0) =~= Seq::<Char>::empty());
        assert(s.skip(0) =~= s);
    } else {
        lemma_seq_width_split(s, k - 1);
        lemma_seq_width_take_succ(s, k - 1);
        lemma_seq_width_skip_succ(s, k - 1);
    }
}

/// The number of source bytes the characters of `v` cover.
pub fn width_of(v: &Vec<Char>) -> (w: usize)
    requires
        seq_width(v@) <= usize::MAX,
    ensures
        w == seq_width(v@),
{
    let mut w: usize = 0;
    let mut i: usize = 0;
    proof {
        assert(v@.take(0) =~= Seq::<Char>::empty());
    }
    while i < v.len()
        invariant
            0 <= i <= v@.len(),
            w == seq_width(v@.take(i as int)),
            seq_width(v@) <= usize::MAX,
        decreases v@.len() - i,
    {
        proof {
            lemma_seq_width_take_succ(v@, i as int);
            lemma_seq_width_split(v@, i + 1);
        }
        w = w + v[i].width();
        i = i + 1;
    }
    proof {
        assert(v@.take(v@.len() as int) =~= v@);
    }
    w
}

} // verus!

