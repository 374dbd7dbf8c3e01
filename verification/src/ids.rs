//! Fresh identifiers and timestamps.

use vstd::prelude::*;

verus! {

/// `c` is a lower-case hexadecimal digit.
pub open spec fn hex_digit(c: char) -> bool {
    '0' <= c <= '9' || 'a' <= c <= 'f'
}

/// `s` is a random (version 4) UUID in its hyphenated lower-case form.
pub open spec fn uuid_text(s: Seq<char>) -> bool {
    &&& s.len() == 36
    &&& s[14] == '4'
    &&& forall|i: int|
        0 <= i < 36 ==> if i == 8 || i == 13 || i == 18 || i == 23 {
            #[trigger] s[i] == '-'
        } else {
            hex_digit(s[i])
        }
}

/// A fresh UUID: `uuid::Uuid::new_v4`, in the form that its `to_string` gives.
/// Which one it is, is left to chance.
#[verifier::external_body]
pub(crate) fn new_uuid() -> (r: String)
    ensures
        uuid_text(r@),
{
    uuid::Uuid::new_v4().to_string()
}

/// `s` ends in a time of day of six digits, behind an underscore.
pub open spec fn stamp_text(s: Seq<char>) -> bool {
    &&& s.len() >= 15
    &&& s[s.len() - 7] == '_'
    &&& forall|i: int| s.len() - 6 <= i < s.len() ==> '0' <= #[trigger] s[i] <= '9'
}

/// The local time as `YYYYMMDD_HHMMSS`: `chrono::Local::now` in the format
/// `%Y%m%d_%H%M%S`. A year may have more than four digits.
#[verifier::external_body]
pub(crate) fn local_stamp() -> (r: String)
    ensures
        stamp_text(r@),
{
    chrono::Local::now().format("%Y%m%d_%H%M%S").to_string()
}

/// `s` ends in a time of day with milliseconds, in UTC.
pub open spec fn utc_stamp(s: Seq<char>) -> bool {
    let n = s.len() as int;
    &&& n >= 24
    &&& s[n - 14] == 'T'
    &&& s[n - 11] == ':'
    &&& s[n - 8] == ':'
    &&& s[n - 5] == '.'
    &&& s[n - 1] == 'Z'
}

/// The time as an RFC 3339 text in UTC with milliseconds, such as
/// `2018-01-26T18:30:09.453Z`: `chrono::Utc::now` and `to_rfc3339_opts`. Which
/// text that is depends on the clock.
#[verifier::external_body]
pub(crate) fn utc_now() -> (r: String)
    ensures
        utc_stamp(r@),
{
    chrono::Utc::now().to_rfc3339_opts(chrono::SecondsFormat::Millis, true)
}

/// `s` ends in the offset of UTC.
pub open spec fn offset_stamp(s: Seq<char>) -> bool {
    s.len() >= 25 && s.skip(s.len() - 6) == "+00:00"@
}

/// The time as an RFC 3339 text in UTC, such as
/// `2018-01-26T18:30:09.453829+00:00`: `chrono::Utc::now` and `to_rfc3339`. Which
/// text that is depends on the clock.
#[verifier::external_body]
fn utc_text() -> (r: String)
    ensures
        offset_stamp(r@),
{
    chrono::Utc::now().to_rfc3339()
}

/// The time in milliseconds of Unix time: `chrono::Utc::now` and
/// `timestamp_millis`. Which number that is depends on the clock.
#[verifier::external_body]
fn utc_millis() -> (r: i64) {
    chrono::Utc::now().timestamp_millis()
}

/// The time in seconds of Unix time: `chrono::Utc::now` and `timestamp`. Which
/// number that is depends on the clock.
#[verifier::external_body]
fn utc_seconds() -> (r: i64) {
    chrono::Utc::now().timestamp()
}

/// A point in time.
#[derive(Debug, PartialEq, Eq)]
pub struct Moment {
    /// The time in ISO 8601.
    pub text: String,
    /// The time in milliseconds of Unix time.
    pub millis: i64,
    /// The time in seconds of Unix time.
    pub seconds: i64,
}

impl Moment {
    /// This moment, whichever that is.
    pub fn now() -> (r: Moment)
        ensures
            offset_stamp(r.text@),
    {
        Moment { text: utc_text(), millis: utc_millis(), seconds: utc_seconds() }
    }
}

} // verus!
