//! Argument-level helpers for hosts: values that arrive as command-line
//! text and must be checked before the library can use them.

use vstd::prelude::*;

use crate::chars::{chars_of, spec_char_byte_len};

verus! {

/// Reads a delimiter argument: exactly one character, and that character
/// a single byte.
pub fn parse_single_byte_char(string: &str) -> (r: Result<u8, &'static str>)
    ensures
        string@.len() != 1 ==> (r matches Err(m) && m@ == "value must be a single character"@),
        string@.len() == 1 && spec_char_byte_len(string@[0]) != 1 ==> (r matches Err(m) && m@
            == "multi-byte characters are not supported"@),
        string@.len() == 1 && spec_char_byte_len(string@[0]) == 1 ==> r == Ok::<
            u8,
            &'static str,
        >(string@[0] as u8),
{
    let chars = chars_of(string);
    if chars.len() != 1 {
        Err("value must be a single character")
    } else {
        let c = chars[0];
        if crate::chars::char_byte_len(c) != 1 {
            Err("multi-byte characters are not supported")
        } else {
            Ok(c as u8)
        }
    }
}

} // verus!
