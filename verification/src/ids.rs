//! Fresh identifiers for players and servers.

use vstd::prelude::*;

verus! {

pub open spec fn is_lower_hex_digit(c: char) -> bool {
    ('0' <= c && c <= '9') || ('a' <= c && c <= 'f')
}

/// Text of a random (version 4) UUID in hyphenated form: 36 characters,
/// hyphens at 8, 13, 18 and 23, lower-case hex digits elsewhere, the version
/// digit `4` at 14 and one of `8`, `9`, `a`, `b` at 19.
pub open spec fn is_uuid_v4_text(s: Seq<char>) -> bool {
    &&& s.len() == 36
    &&& forall|i: int|
        0 <= i < 36 ==> if i == 8 || i == 13 || i == 18 || i == 23 {
            #[trigger] s[i] == '-'
        } else {
            is_lower_hex_digit(s[i])
        }
    &&& s[14] == '4'
    &&& (s[19] == '8' || s[19] == '9' || s[19] == 'a' || s[19] == 'b')
}

/// A new random UUID as text.
///
/// Calls `uuid::Uuid::new_v4` and formats it with `Display`. The contract
/// claims only the shape of the text, which `new_v4` (version and variant
/// bits fixed) and the hyphenated lower-case `Display` of the `uuid` crate
/// guarantee for every outcome; the random digits are not stated.
#[verifier::external_body]
pub fn new_uuid_v4_string() -> (s: String)
    ensures
        is_uuid_v4_text(s@),
{
    uuid::Uuid::new_v4().to_string()
}

} // verus!
