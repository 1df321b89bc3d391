//! The number micro-grammar: a maximal run of ASCII digits, read as a
//! decimal value.  Values too large for `usize` saturate at `usize::MAX`;
//! such an index lies past the end of any string that fits in memory, so
//! clamping never changes what a range or capture-group index selects.

use vstd::prelude::*;

use crate::reader::{Char, Reader};

verus! {

pub open spec fn spec_is_digit(c: char) -> bool {
    '0' <= c && c <= '9'
}

pub open spec fn spec_digit_val(c: char) -> nat {
    (c as u32 - '0' as u32) as nat
}

/// Index just past the maximal digit run starting at `i`.
pub open spec fn spec_num_end(s: Seq<Char>, i: int) -> int
    decreases s.len() - i,
{
    if 0 <= i < s.len() && spec_is_digit(s[i].spec_value()) {
        spec_num_end(s, i + 1)
    } else {
        i
    }
}

/// Decimal value of the digits `s[i..j)`.
pub open spec fn spec_num_val(s: Seq<Char>, i: int, j: int) -> nat
    decreases j - i,
{
    if i < j {
        spec_num_val(s, i, j - 1) * 10 + spec_digit_val(s[j - 1].spec_value())
    } else {
        0
    }
}

/// The value the number micro-grammar yields for the digit run at `i`:
/// its decimal value, saturated at `usize::MAX`.
pub open spec fn spec_number(s: Seq<Char>, i: int) -> nat {
    let v = spec_num_val(s, i, spec_num_end(s, i));
    if v > usize::MAX {
        usize::MAX as nat
    } else {
        v
    }
}

pub proof fn lemma_num_end_bounds(s: Seq<Char>, i: int)
    requires
        0 <= i <= s.len(),
    ensures
        i <= spec_num_end(s, i) <= s.len(),
    decreases s.len() - i,
{
    if i < s.len() && spec_is_digit(s[i].spec_value()) {
        lemma_num_end_bounds(s, i + 1);
    }
}

proof fn lemma_num_val_step_overflows(s: Seq<Char>, i: int, j: int, acc: nat, d: nat)
    requires
        acc <= spec_num_val(s, i, j),
        acc * 10 + d > usize::MAX,
        d == spec_digit_val(s[j].spec_value()),
        i <= j,
    ensures
        spec_num_val(s, i, j + 1) > usize::MAX,
{
    assert(spec_num_val(s, i, j + 1) == spec_num_val(s, i, j) * 10 + d);
    assert(spec_num_val(s, i, j) * 10 >= acc * 10) by (nonlinear_arith)
        requires
            spec_num_val(s, i, j) >= acc,
    ;
}

fn exec_is_digit(c: char) -> (r: bool)
    ensures
        r == spec_is_digit(c),
{
    '0' <= c && c <= '9'
}

/// Reads a maximal digit run and returns its saturated decimal value, or
/// `None` without consuming anything when the next character is not a digit.
pub fn parse_number(reader: &mut Reader) -> (r: Option<usize>)
    ensures
        final(reader).spec_chars() == old(reader).spec_chars(),
        ({
            let s = old(reader).spec_chars();
            let i = old(reader).spec_index();
            if i < s.len() && spec_is_digit(s[i].spec_value()) {
                &&& r == Some((spec_number(s, i) as usize))
                &&& final(reader).spec_index() == spec_num_end(s, i)
                &&& final(reader).spec_position() == old(reader).spec_position()
                    + crate::reader::seq_width(s.subrange(i, spec_num_end(s, i)))
            } else {
                &&& r is None
                &&& final(reader).spec_index() == i
                &&& final(reader).spec_position() == old(reader).spec_position()
            }
        }),
{
    let ghost s = reader.spec_chars();
    let ghost i0 = reader.spec_index();
    let ghost pos0 = reader.spec_position();
    match reader.peek_value() {
        Some(c) => {
            if !exec_is_digit(c) {
                return None;
            }
        },
        None => {
            return None;
        },
    }
    let mut acc: usize = 0;
    let ghost mut j = i0;
    proof {
        lemma_num_end_bounds(s, i0);
        assert(s.subrange(i0, i0) =~= Seq::<Char>::empty());
    }
    loop
        invariant
            reader.spec_chars() == s,
            0 <= i0 <= j <= s.len(),
            j == reader.spec_index(),
            reader.spec_position() == pos0 + crate::reader::seq_width(s.subrange(i0, j)),
            spec_num_end(s, i0) == spec_num_end(s, j),
            spec_num_val(s, i0, j) > usize::MAX ==> acc == usize::MAX,
            spec_num_val(s, i0, j) <= usize::MAX ==> acc == spec_num_val(s, i0, j),
        ensures
            j == reader.spec_index(),
            reader.spec_chars() == s,
            j == spec_num_end(s, i0),
            reader.spec_position() == pos0 + crate::reader::seq_width(s.subrange(i0, j)),
            spec_num_val(s, i0, j) > usize::MAX ==> acc == usize::MAX,
            spec_num_val(s, i0, j) <= usize::MAX ==> acc == spec_num_val(s, i0, j),
        decreases s.len() - j,
    {
        let next_digit = match reader.peek_value() {
            Some(c) => exec_is_digit(c),
            None => false,
        };
        if !next_digit {
            proof {
                assert(spec_num_end(s, j) == j);
            }
            break ;
        }
        assert(j < s.len());
        assert(spec_is_digit(s[j].spec_value()));
        let c = match reader.read() {
            Some(c) => c.value(),
            None => {
                proof {
                    assert(false);
                }
                '0'
            },
        };
        proof {
            assert(s.subrange(i0, j + 1) =~= s.subrange(i0, j).push(s[j]));
            crate::reader::lemma_seq_width_push(s.subrange(i0, j), s[j]);
        }
        let d = (c as u32 - '0' as u32) as usize;
        proof {
            assert(spec_num_end(s, j) == spec_num_end(s, j + 1));
            assert(spec_num_val(s, i0, j + 1) == spec_num_val(s, i0, j) * 10 + spec_digit_val(
                c,
            ));
        }
        if acc > (usize::MAX - d) / 10 {
            proof {
                assert(acc * 10 + d > usize::MAX) by (nonlinear_arith)
                    requires
                        acc > (usize::MAX as int - d) / 10,
                        0 <= d <= usize::MAX,
                ;
                lemma_num_val_step_overflows(s, i0, j, acc as nat, d as nat);
            }
            acc = usize::MAX;
        } else {
            proof {
                assert(acc * 10 + d <= usize::MAX) by (nonlinear_arith)
                    requires
                        acc <= (usize::MAX as int - d) / 10,
                        0 <= d <= usize::MAX,
                ;
                if spec_num_val(s, i0, j) > usize::MAX {
                    lemma_num_val_step_overflows(s, i0, j, acc as nat, d as nat);
                    assert(acc == usize::MAX);
                    assert(acc * 10 + d > usize::MAX) by (nonlinear_arith)
                        requires
                            acc == usize::MAX as int,
                            d >= 0,
                    ;
                    assert(false);
                }
            }
            acc = acc * 10 + d;
        }
        proof {
            j = j + 1;
        }
    }
    Some(acc)
}

} // verus!
