//! Fresh identifiers and the current time.
use vstd::prelude::*;

verus! {

/// A string in the canonical textual form of a random (version 4) UUID:
/// 36 characters, hyphens at positions 8, 13, 18 and 23, lowercase
/// hexadecimal digits elsewhere, and the version digit `4` at position 14.
pub open spec fn is_hyphenated_v4(s: Seq<char>) -> bool {
    &&& s.len() == 36
    &&& forall|i: int| 0 <= i < 36 ==> {
        if i == 8 || i == 13 || i == 18 || i == 23 {
            #[trigger] s[i] == '-'
        } else {
            ('0' <= s[i] <= '9') || ('a' <= s[i] <= 'f')
        }
    }
    &&& s[14] == '4'
}

/// Calls `uuid::Uuid::new_v4` and renders the result with `to_string`.
///
/// Claimed: the text has the hyphenated lowercase form of a version 4 UUID
/// (uuid's `format_hyphenated` and `new_v4`, which sets the version bits).
/// Unsaid: which UUID comes back; it is drawn from the operating system's
/// random source, and uuid panics if that source cannot be read.
#[verifier::external_body]
pub(crate) fn new_v4_id() -> (id: String)
    ensures
        is_hyphenated_v4(id@),
{
    uuid::Uuid::new_v4().to_string()
}

/// Calls `chrono::Utc::now` and converts it with `timestamp_millis`.
///
/// Claimed: the result is not negative (chrono's `now` panics on a clock set
/// before the Unix epoch rather than return such a time).
/// Unsaid: which instant it is; it is read from the system clock.
#[verifier::external_body]
pub(crate) fn now_millis() -> (ms: i64)
    ensures
        ms >= 0,
{
    chrono::Utc::now().timestamp_millis()
}

/// The characters of `s` in `[a, b)` are decimal digits.
pub open spec fn digits(s: Seq<char>, a: int, b: int) -> bool {
    forall|i: int| a <= i < b ==> '0' <= #[trigger] s[i] <= '9'
}

/// A UTC time stamp in the RFC 3339 form chrono writes:
/// `YYYY-MM-DDTHH:MM:SS`, then a fraction of 3, 6 or 9 digits or none, then
/// the zero offset `+00:00`; a year past 9999 is written with a leading `+`
/// and more digits.
pub open spec fn is_utc_rfc3339(s: Seq<char>) -> bool {
    exists|f: int| #![trigger digits(s, s.len() - 6 - f + 1, s.len() - 6)] {
        let e = s.len() - 6 - f;
        &&& (f == 0 || f == 4 || f == 7 || f == 10)
        &&& e >= 19
        &&& s.subrange(s.len() - 6, s.len() as int) == seq!['+', '0', '0', ':', '0', '0']
        &&& f > 0 ==> s[e] == '.'
        &&& digits(s, e + 1, s.len() - 6)
        &&& digits(s, e - 2, e) && s[e - 3] == ':' && digits(s, e - 5, e - 3) && s[e - 6] == ':'
        &&& digits(s, e - 8, e - 6) && s[e - 9] == 'T'
        &&& digits(s, e - 11, e - 9) && s[e - 12] == '-' && digits(s, e - 14, e - 12) && s[e - 15] == '-'
        &&& (e - 15 == 4 && digits(s, 0, 4)) || (e - 15 >= 5 && s[0] == '+' && digits(s, 1, e - 15))
    }
}

/// Calls `chrono::Utc::now` and renders it with `to_rfc3339`.
///
/// Claimed: the text has the form of a UTC RFC 3339 stamp (chrono's
/// `write_rfc3339` writes a four-digit year, or a signed one past 9999,
/// two-digit month, day, hour, minute and second, a fraction of 3, 6 or 9
/// digits when the nanoseconds are not zero, and the offset of `Utc`, zero,
/// as `+00:00`; `now` yields no year before 1970).
/// Unsaid: which instant it is; it is read from the system clock.
#[verifier::external_body]
pub(crate) fn now_rfc3339() -> (s: String)
    ensures
        is_utc_rfc3339(s@),
{
    chrono::Utc::now().to_rfc3339()
}

} // verus!
