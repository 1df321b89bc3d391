//! The generator filters: counters rendered from the caller's context, and
//! freshly generated version-4 UUIDs.

use vstd::prelude::*;

verus! {

pub open spec fn spec_is_hex_lower(c: char) -> bool {
    ('0' <= c && c <= '9') || ('a' <= c && c <= 'f')
}

/// The canonical lowercase hyphenated form of a version-4 RFC 4122 UUID:
/// 32 lowercase hex digits in groups of 8-4-4-4-12, the version nibble `4`,
/// and a variant nibble in `8`..`b`.
pub open spec fn spec_is_uuid_v4(s: Seq<char>) -> bool {
    &&& s.len() == 36
    &&& forall|i: int|
        0 <= i < 36 ==> if i == 8 || i == 13 || i == 18 || i == 23 {
            s[i] == '-'
        } else {
            spec_is_hex_lower(#[trigger] s[i])
        }
    &&& s[14] == '4'
    &&& (s[19] == '8' || s[19] == '9' || s[19] == 'a' || s[19] == 'b')
}

/// A freshly generated random UUID, rendered in canonical form.
///
/// Relies on `uuid::Uuid::new_v4`, which fixes the version nibble to `4`
/// and the variant bits to the RFC 4122 variant, and on
/// `uuid::fmt::Hyphenated::encode_lower`, which renders the canonical
/// lowercase hyphenated form.  The value is random: only its shape is
/// promised.
#[verifier::external_body]
pub fn new_uuid() -> (r: String)
    ensures
        spec_is_uuid_v4(r@),
{
    let id = uuid::Uuid::new_v4();
    let mut buffer = uuid::Uuid::encode_buffer();
    let text = id.hyphenated().encode_lower(&mut buffer);
    text.to_string()
}

} // verus!
