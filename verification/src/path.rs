//! The path filters, over POSIX-style path strings: `/` separates
//! components, the file name is everything after the last separator, and an
//! extension is what follows the last dot of the file name when that dot is
//! not its first character.  Canonicalization is the one filter that must
//! ask the filesystem and so goes through a trusted wrapper.

use vstd::prelude::*;

use crate::strings::push_range;

verus! {

/// Index of the last `/` in `s`, or `-1` when there is none.
pub open spec fn spec_last_index_of(s: Seq<char>, c: char) -> int
    decreases s.len(),
{
    if s.len() == 0 {
        -1
    } else if s.last() == c {
        s.len() - 1
    } else {
        spec_last_index_of(s.drop_last(), c)
    }
}

pub proof fn lemma_last_index_of(s: Seq<char>, c: char)
    ensures
        -1 <= spec_last_index_of(s, c) < s.len(),
    decreases s.len(),
{
    if s.len() > 0 && s.last() != c {
        lemma_last_index_of(s.drop_last(), c);
    }
}

/// Everything after the last `/`; the whole string when there is none.
pub open spec fn spec_file_name(s: Seq<char>) -> Seq<char> {
    s.skip(spec_last_index_of(s, '/') + 1)
}

/// Everything before the last `/`; empty when there is none.
pub open spec fn spec_parent(s: Seq<char>) -> Seq<char> {
    if spec_last_index_of(s, '/') >= 0 {
        s.take(spec_last_index_of(s, '/'))
    } else {
        Seq::empty()
    }
}

/// The file name of the parent; empty when there is no parent.
pub open spec fn spec_parent_name(s: Seq<char>) -> Seq<char> {
    spec_file_name(spec_parent(s))
}

/// Index of the dot starting the extension within the file name, or `-1`:
/// the last dot, except that a dot in first position starts no extension.
pub open spec fn spec_ext_dot(f: Seq<char>) -> int {
    let d = spec_last_index_of(f, '.');
    if d > 0 {
        d
    } else {
        -1
    }
}

/// The extension without its dot; empty when there is none.
pub open spec fn spec_extension(s: Seq<char>) -> Seq<char> {
    let f = spec_file_name(s);
    let d = spec_ext_dot(f);
    if d >= 0 {
        f.skip(d + 1)
    } else {
        Seq::empty()
    }
}

/// The extension with its dot; empty when there is none.
pub open spec fn spec_extension_with_dot(s: Seq<char>) -> Seq<char> {
    let f = spec_file_name(s);
    let d = spec_ext_dot(f);
    if d >= 0 {
        f.skip(d)
    } else {
        Seq::empty()
    }
}

/// The file name without its extension.
pub open spec fn spec_base_name(s: Seq<char>) -> Seq<char> {
    let f = spec_file_name(s);
    let d = spec_ext_dot(f);
    if d >= 0 {
        f.take(d)
    } else {
        f
    }
}

/// `s` resolved against `cur` when it is relative: absolute paths (leading
/// `/`) stay as they are; otherwise the two are joined with exactly one
/// separator.
pub open spec fn spec_absolute(s: Seq<char>, cur: Seq<char>) -> Seq<char> {
    if s.len() > 0 && s[0] == '/' {
        s
    } else if cur.len() == 0 {
        s
    } else if cur.last() == '/' {
        cur + s
    } else {
        cur + seq!['/'] + s
    }
}

/// Index of the last occurrence of `c` in `v`, or `None`.
pub fn last_index_of(v: &Vec<char>, c: char) -> (r: Option<usize>)
    ensures
        match r {
            Some(k) => k == spec_last_index_of(v@, c) && k < v@.len(),
            None => spec_last_index_of(v@, c) < 0,
        },
{
    let mut i = v.len();
    proof {
        assert(v@.take(v@.len() as int) =~= v@);
    }
    while i > 0
        invariant
            0 <= i <= v@.len(),
            spec_last_index_of(v@, c) == spec_last_index_of(v@.take(i as int), c),
        decreases i,
    {
        proof {
            assert(v@.take(i as int).last() == v@[i - 1]);
            assert(v@.take(i as int).drop_last() =~= v@.take(i - 1));
        }
        if v[i - 1] == c {
            return Some(i - 1);
        }
        i = i - 1;
    }
    proof {
        assert(v@.take(0) =~= Seq::<char>::empty());
    }
    None
}

/// The file-name part of `v`: everything after the last `/`.
pub fn file_name(v: &Vec<char>) -> (out: Vec<char>)
    ensures
        out@ == spec_file_name(v@),
{
    proof {
        lemma_last_index_of(v@, '/');
    }
    let n = v.len();
    let start = match last_index_of(v, '/') {
        Some(k) => k + 1,
        None => 0,
    };
    let mut out: Vec<char> = Vec::new();
    push_range(&mut out, v, start, n);
    proof {
        assert(out@ =~= v@.skip(spec_last_index_of(v@, '/') + 1));
    }
    out
}

/// The parent part of `v`: everything before the last `/`.
pub fn parent(v: &Vec<char>) -> (out: Vec<char>)
    ensures
        out@ == spec_parent(v@),
{
    proof {
        lemma_last_index_of(v@, '/');
    }
    let mut out: Vec<char> = Vec::new();
    match last_index_of(v, '/') {
        Some(k) => {
            push_range(&mut out, v, 0, k);
            proof {
                assert(out@ =~= v@.take(k as int));
            }
        },
        None => {
            proof {
                assert(out@ =~= Seq::<char>::empty());
            }
        },
    }
    out
}

/// The file name of the parent of `v`.
pub fn parent_name(v: &Vec<char>) -> (out: Vec<char>)
    ensures
        out@ == spec_parent_name(v@),
{
    let p = parent(v);
    file_name(&p)
}

/// Index of the dot starting the extension within the file name `f`.
fn ext_dot(f: &Vec<char>) -> (r: Option<usize>)
    ensures
        match r {
            Some(d) => d == spec_ext_dot(f@) && 0 < d < f@.len(),
            None => spec_ext_dot(f@) < 0,
        },
{
    proof {
        lemma_last_index_of(f@, '.');
    }
    match last_index_of(f, '.') {
        Some(d) => {
            if d > 0 {
                Some(d)
            } else {
                None
            }
        },
        None => None,
    }
}

/// The extension of `v`, without its dot.
pub fn extension(v: &Vec<char>) -> (out: Vec<char>)
    ensures
        out@ == spec_extension(v@),
{
    let f = file_name(v);
    let n = f.len();
    let mut out: Vec<char> = Vec::new();
    match ext_dot(&f) {
        Some(d) => {
            push_range(&mut out, &f, d + 1, n);
            proof {
                assert(out@ =~= f@.skip(spec_ext_dot(f@) + 1));
            }
        },
        None => {
            proof {
                assert(out@ =~= Seq::<char>::empty());
            }
        },
    }
    out
}

/// The extension of `v`, with its dot.
pub fn extension_with_dot(v: &Vec<char>) -> (out: Vec<char>)
    ensures
        out@ == spec_extension_with_dot(v@),
{
    let f = file_name(v);
    let mut out: Vec<char> = Vec::new();
    match ext_dot(&f) {
        Some(d) => {
            push_range(&mut out, &f, d, f.len());
            proof {
                assert(out@ =~= f@.skip(spec_ext_dot(f@)));
            }
        },
        None => {
            proof {
                assert(out@ =~= Seq::<char>::empty());
            }
        },
    }
    out
}

/// The file name of `v` without its extension.
pub fn base_name(v: &Vec<char>) -> (out: Vec<char>)
    ensures
        out@ == spec_base_name(v@),
{
    let f = file_name(v);
    let mut out: Vec<char> = Vec::new();
    match ext_dot(&f) {
        Some(d) => {
            push_range(&mut out, &f, 0, d);
            proof {
                assert(out@ =~= f@.take(spec_ext_dot(f@)));
            }
        },
        None => {
            push_range(&mut out, &f, 0, f.len());
            proof {
                assert(out@ =~= f@);
            }
        },
    }
    out
}

/// `v` resolved against `cur` when it is relative.
pub fn absolute(v: &Vec<char>, cur: &Vec<char>) -> (out: Vec<char>)
    ensures
        out@ == spec_absolute(v@, cur@),
{
    if v.len() > 0 && v[0] == '/' {
        let mut out: Vec<char> = Vec::new();
        push_range(&mut out, v, 0, v.len());
        proof {
            assert(out@ =~= v@);
        }
        out
    } else if cur.len() == 0 {
        let mut out: Vec<char> = Vec::new();
        push_range(&mut out, v, 0, v.len());
        proof {
            assert(out@ =~= v@);
        }
        out
    } else {
        let mut out: Vec<char> = Vec::new();
        push_range(&mut out, cur, 0, cur.len());
        proof {
            assert(out@ =~= cur@);
        }
        if cur[cur.len() - 1] != '/' {
            out.push('/');
        }
        push_range(&mut out, v, 0, v.len());
        proof {
            if cur@.last() == '/' {
                assert(out@ =~= cur@ + v@);
            } else {
                assert(out@ =~= cur@ + seq!['/'] + v@);
            }
        }
        out
    }
}

/// Resolves `path` against the filesystem: follows symlinks and removes
/// `.` and `..` components.  The outcome depends on what is on disk, so
/// nothing is promised beyond the shape of the result.
///
/// Relies on `std::path::Path::canonicalize`: it returns the canonical form
/// of an existing path, and an error (here, its message) for a path that
/// does not exist or cannot be resolved.
#[verifier::external_body]
pub fn canonicalize(path: &str) -> (r: Result<String, String>)
    ensures
        r is Ok || r is Err,
{
    match std::path::Path::new(path).canonicalize() {
        Ok(resolved) => match resolved.to_str() {
            Some(text) => Ok(text.to_string()),
            None => Err("canonical path is not valid unicode".to_string()),
        },
        Err(error) => Err(error.to_string()),
    }
}

} // verus!
