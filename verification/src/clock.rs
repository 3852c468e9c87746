//! The wall clock.
use vstd::prelude::*;

verus! {

/// Microseconds since the Unix epoch, now.
///
/// Trusted: calls `chrono::Utc::now().timestamp_micros()`. Nothing is
/// claimed of the value: it is the machine's clock.
#[verifier::external_body]
pub(crate) fn now_micros() -> (t: i64) {
    chrono::Utc::now().timestamp_micros()
}


pub open spec fn is_digit(c: char) -> bool {
    '0' <= c <= '9'
}

/// The shape of a `%Y%m%d-%H%M%S` stamp: the year, two digits each of month
/// and day, a dash, and two digits each of hour, minute and second. The year
/// is four digits up to 9999; beyond that chrono writes a `+` and more digits.
pub open spec fn is_clock_stamp(s: Seq<char>) -> bool {
    &&& s.len() >= 15
    &&& s[s.len() - 7] == '-'
    &&& forall|i: int| 1 <= i < s.len() && i != s.len() - 7 ==> is_digit(#[trigger] s[i])
    &&& (is_digit(s[0]) || s[0] == '+')
}

/// The current UTC time as `YYYYmmdd-HHMMSS`.
///
/// Trusted: calls `chrono::Utc::now().format("%Y%m%d-%H%M%S")`. Claimed, as
/// chrono writes these fields: the text has the shape `is_clock_stamp`
/// (zero-padded numeric fields; a year of at least 1970, since `Utc::now`
/// refuses a clock before the Unix epoch). Which time it shows is not
/// stated: it is the machine's clock.
#[verifier::external_body]
pub(crate) fn utc_stamp_now() -> (s: String)
    ensures
        is_clock_stamp(s@),
{
    chrono::Utc::now().format("%Y%m%d-%H%M%S").to_string()
}

} // verus!
