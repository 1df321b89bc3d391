//! Input values for one run.  The library iterates values handed to it as
//! arguments; a host that reads values from a stream keeps the reading to
//! itself and uses `trimmed_record_len` to cut each raw record down to its
//! value before handing it over.

use vstd::prelude::*;

verus! {

/// A source of input values.  Values read from a stream are the host's
/// business; the library-side source is the argument list.
pub enum Input {
    Args { values: Vec<String>, index: usize },
}

/// How many of the record's bytes belong to its value: a trailing
/// delimiter is dropped, and a carriage return before a dropped newline is
/// dropped with it.
pub open spec fn spec_trimmed_len(buffer: Seq<u8>, delimiter: Option<u8>) -> nat {
    match delimiter {
        Option::None => buffer.len(),
        Option::Some(d) => {
            if buffer.len() > 0 && buffer.last() == d {
                let shorter = buffer.drop_last();
                if d == 10 && shorter.len() > 0 && shorter.last() == 13 {
                    (buffer.len() - 2) as nat
                } else {
                    (buffer.len() - 1) as nat
                }
            } else {
                buffer.len()
            }
        },
    }
}

/// The length of the value inside one raw record, as read up to and
/// including its delimiter.
pub fn trimmed_record_len(buffer: &Vec<u8>, delimiter: Option<u8>) -> (n: usize)
    ensures
        n == spec_trimmed_len(buffer@, delimiter),
        n <= buffer@.len(),
{
    let mut n = buffer.len();
    match delimiter {
        None => n,
        Some(d) => {
            if n > 0 && buffer[n - 1] == d {
                n = n - 1;
                if d == 10 && n > 0 && buffer[n - 1] == 13 {
                    n = n - 1;
                }
            }
            proof {
                if buffer@.len() > 0 && buffer@.last() == d {
                    assert(buffer@.drop_last().len() == buffer@.len() - 1);
                    if buffer@.len() >= 2 {
                        assert(buffer@.drop_last().last() == buffer@[buffer@.len() - 2]);
                    }
                }
            }
            n
        },
    }
}

impl Input {
    /// A source over the given argument values.
    pub fn from_args(values: Vec<String>) -> (r: Input)
        ensures
            r matches Input::Args { values: v, index } && v@ == values@ && index == 0,
    {
        Input::Args { values, index: 0 }
    }

    /// The next value, or `None` when the arguments are exhausted.
    pub fn next(&mut self) -> (r: Option<String>)
        ensures
            ({
                let Input::Args { values, index } = *old(self);
                let Input::Args { values: nv, index: ni } = *final(self);
                &&& nv@ == values@
                &&& if index < values@.len() {
                    &&& r matches Some(v) && v@ == values@[index as int]@
                    &&& ni == index + 1
                } else {
                    &&& r is None
                    &&& ni == index
                }
            }),
    {
        match self {
            Input::Args { values, index } => {
                if *index < values.len() {
                    let value = values[*index].clone();
                    *index = *index + 1;
                    Some(value)
                } else {
                    None
                }
            },
        }
    }
}

} // verus!
