//! Random identifiers, drawn by the `rand` and `uuid` crates.

use vstd::prelude::*;

use crate::text::is_hex_digit;

verus! {

/// `rand::random::<u128>` draws from the generator of the current thread.
/// Nothing is claimed of the number: any value may come.
#[verifier::external_body]
pub(crate) fn random_u128() -> (r: u128)
{
    rand::random::<u128>()
}

/// `rand::random::<u64>` draws from the generator of the current thread.
/// Nothing is claimed of the number: any value may come.
#[verifier::external_body]
pub(crate) fn random_u64() -> (r: u64)
{
    rand::random::<u64>()
}

/// The text form of a random identifier: lower-case hexadecimal digits in
/// groups of eight, four, four, four and twelve, with hyphens between the
/// groups; the third group starts with the version, the fourth with the
/// variant.
pub open spec fn is_uuid_v4(s: Seq<char>) -> bool {
    &&& s.len() == 36
    &&& forall|i: int|
        0 <= i < 36 ==> if i == 8 || i == 13 || i == 18 || i == 23 {
            #[trigger] s[i] == '-'
        } else {
            is_hex_digit(s[i])
        }
    &&& s[14] == '4'
    &&& s[19] == '8' || s[19] == '9' || s[19] == 'a' || s[19] == 'b'
}

/// `uuid::Uuid::new_v4` makes a random identifier, and its `to_string` writes
/// it hyphenated, in lower case. Which identifier comes is not claimed.
#[verifier::external_body]
pub(crate) fn uuid_v4_text() -> (r: String)
    ensures
        is_uuid_v4(r@),
{
    uuid::Uuid::new_v4().to_string()
}

} // verus!
