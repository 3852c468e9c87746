//! Random identifiers for messages, tasks and deals.
use vstd::prelude::*;
use crate::text::is_lower_hex;

verus! {

/// The hyphenated text form of a UUID: thirty-six characters, dashes at
/// positions 8, 13, 18 and 23, lower-case hex digits elsewhere.
pub open spec fn is_hyphenated_uuid(s: Seq<char>) -> bool {
    &&& s.len() == 36
    &&& forall|i: int| 0 <= i < 36 ==> if i == 8 || i == 13 || i == 18 || i == 23 {
        #[trigger] s[i] == '-'
    } else {
        is_lower_hex(s[i])
    }
}

/// A random UUID in its usual hyphenated text form.
///
/// Trusted: calls `uuid::Uuid::new_v4().to_string()`. Claimed, as the crate's
/// `Display` writes it (lower-case hyphenated form): the text has the shape
/// `is_hyphenated_uuid`. Which UUID it is, is random and not stated.
#[verifier::external_body]
pub(crate) fn random_uuid() -> (s: String)
    ensures
        is_hyphenated_uuid(s@),
{
    uuid::Uuid::new_v4().to_string()
}

/// A random UUID as thirty-two hex digits.
///
/// Trusted: calls `uuid::Uuid::new_v4().simple().to_string()`. Claimed, as the
/// crate documents for the "simple" format: thirty-two lower-case hex digits.
#[verifier::external_body]
pub(crate) fn random_uuid_simple() -> (s: String)
    ensures
        s@.len() == 32,
        forall|i: int| 0 <= i < 32 ==> is_lower_hex(#[trigger] s@[i]),
{
    uuid::Uuid::new_v4().simple().to_string()
}

} // verus!
