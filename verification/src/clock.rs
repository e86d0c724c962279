//! Points in time as text.

use vstd::prelude::*;
use crate::text::is_digit;

verus! {

/// Digits stand from one position up to another.
pub open spec fn digits_from(s: Seq<char>, from: int, to: int) -> bool {
    forall|i: int| from <= i < to ==> is_digit(#[trigger] s[i])
}

/// A point in time in UTC in the form of RFC 3339, its year in the first `y`
/// characters: four digits, or a plus sign and more. The month and the day, the
/// hour, the minute and the second follow, a fraction of three, six or nine
/// digits where there is one, and a `Z`.
pub open spec fn utc_time_at(s: Seq<char>, y: int) -> bool {
    &&& (y == 4 && digits_from(s, 0, 4)) || (y >= 6 && s[0] == '+' && digits_from(s, 1, y))
    &&& s.len() >= y + 16
    &&& s[y] == '-' && digits_from(s, y + 1, y + 3)
    &&& s[y + 3] == '-' && digits_from(s, y + 4, y + 6)
    &&& s[y + 6] == 'T' && digits_from(s, y + 7, y + 9)
    &&& s[y + 9] == ':' && digits_from(s, y + 10, y + 12)
    &&& s[y + 12] == ':' && digits_from(s, y + 13, y + 15)
    &&& s.last() == 'Z'
    &&& s.len() == y + 16 || {
        &&& s[y + 15] == '.' && digits_from(s, y + 16, s.len() - 1)
        &&& s.len() == y + 20 || s.len() == y + 23 || s.len() == y + 26
    }
}

/// A point in time in UTC in the form of RFC 3339, with a `Z`.
pub open spec fn is_utc_time(s: Seq<char>) -> bool {
    exists|y: int| #[trigger] utc_time_at(s, y)
}

/// The present time in UTC, in the form of RFC 3339 with a `Z`: `Utc::now` and
/// `DateTime::to_rfc3339_opts` of the `chrono` crate. Nothing is claimed of
/// what the clock says but the form of the text.
#[verifier::external_body]
fn utc_now_text() -> (r: String)
    ensures
        is_utc_time(r@),
{
    chrono::Utc::now().to_rfc3339_opts(chrono::SecondsFormat::AutoSi, true)
}

/// A text that `utc_now_text` gave.
pub closed spec fn is_now_text(t: String) -> bool {
    call_ensures(utc_now_text, (), t)
}

/// Reads the clock.
pub(crate) fn now_text() -> (r: String)
    ensures
        is_now_text(r),
        is_utc_time(r@),
{
    let clock = utc_now_text;
    clock()
}

} // verus!
