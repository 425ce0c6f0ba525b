//! Reading and writing instants as text. The parsing and formatting is done
//! by `chrono`, the search for an embedded date by `regex`; what they return
//! is named here and believed, not proved.

use vstd::prelude::*;
use crate::models::Timestamp;

verus! {

/// The instant, in seconds since the epoch and nanoseconds, that an RFC 3339
/// text with an offset denotes, if the text is one.
pub uninterp spec fn rfc3339_instant(s: Seq<char>) -> Option<(i64, u32)>;

/// The instant of the date and time that `s` denotes under the strftime-style
/// layout `fmt`, read as UTC, if `s` has that layout.
pub uninterp spec fn naive_instant(s: Seq<char>, fmt: Seq<char>) -> Option<(i64, u32)>;

/// The instant that a text in the relaxed form of RFC 3339 denotes, in which
/// a space may stand between date and time, if the text has that form.
pub uninterp spec fn relaxed_instant(s: Seq<char>) -> Option<(i64, u32)>;

/// The RFC 3339 text of the UTC instant `secs`, `nanos`, if the instant is
/// within the range of dates that can be written.
pub uninterp spec fn rfc3339_text(secs: i64, nanos: u32) -> Option<Seq<char>>;

/// The leftmost match of the regular expression `pattern` in `text`, if the
/// pattern compiles and matches.
pub uninterp spec fn regex_first_match(pattern: Seq<char>, text: Seq<char>) -> Option<Seq<char>>;

/// A pair of seconds and nanoseconds as an instant.
pub open spec fn instant(p: Option<(i64, u32)>) -> Option<Timestamp> {
    match p {
        Some((secs, nanos)) => Some(Timestamp { secs, nanos }),
        None => None,
    }
}

/// `chrono::DateTime::parse_from_rfc3339`, converted to UTC: the instant the
/// whole text denotes, or nothing when the text is not RFC 3339.
#[verifier::external_body]
pub(crate) fn parse_rfc3339(s: &str) -> (r: Option<Timestamp>)
    ensures
        r == instant(rfc3339_instant(s@)),
{
    match chrono::DateTime::parse_from_rfc3339(s) {
        Ok(dt) => Some(Timestamp { secs: dt.timestamp(), nanos: dt.timestamp_subsec_nanos() }),
        Err(_) => None,
    }
}

/// `str::parse::<chrono::DateTime<chrono::Utc>>`: the instant the whole text
/// denotes in the relaxed form of RFC 3339, or nothing.
#[verifier::external_body]
pub(crate) fn parse_relaxed(s: &str) -> (r: Option<Timestamp>)
    ensures
        r == instant(relaxed_instant(s@)),
{
    match s.parse::<chrono::DateTime<chrono::Utc>>() {
        Ok(dt) => Some(Timestamp { secs: dt.timestamp(), nanos: dt.timestamp_subsec_nanos() }),
        Err(_) => None,
    }
}

/// `chrono::NaiveDateTime::parse_from_str`, taken as UTC: the instant the
/// whole text denotes under `fmt`, or nothing when it does not fit.
#[verifier::external_body]
pub(crate) fn parse_naive(s: &str, fmt: &str) -> (r: Option<Timestamp>)
    ensures
        r == instant(naive_instant(s@, fmt@)),
{
    match chrono::NaiveDateTime::parse_from_str(s, fmt) {
        Ok(dt) => {
            let utc = dt.and_utc();
            Some(Timestamp { secs: utc.timestamp(), nanos: utc.timestamp_subsec_nanos() })
        },
        Err(_) => None,
    }
}

/// `chrono::DateTime::to_rfc3339` on the UTC instant built by
/// `DateTime::from_timestamp`: its text, or nothing when the instant is out
/// of the range of dates.
#[verifier::external_body]
pub(crate) fn format_rfc3339(t: &Timestamp) -> (r: Option<String>)
    ensures
        match r {
            Some(s) => rfc3339_text(t.secs, t.nanos) == Some(s@),
            None => rfc3339_text(t.secs, t.nanos) is None,
        },
{
    match chrono::DateTime::from_timestamp(t.secs, t.nanos) {
        Some(dt) => Some(dt.to_rfc3339()),
        None => None,
    }
}

/// `regex::Regex::new` followed by `Regex::find`: the text of the leftmost
/// match, or nothing when the pattern does not compile or does not match.
#[verifier::external_body]
pub(crate) fn find_pattern(pattern: &str, text: &str) -> (r: Option<String>)
    ensures
        match r {
            Some(m) => regex_first_match(pattern@, text@) == Some(m@),
            None => regex_first_match(pattern@, text@) is None,
        },
{
    match regex::Regex::new(pattern) {
        Ok(re) => re.find(text).map(|m| m.as_str().to_string()),
        Err(_) => None,
    }
}

} // verus!
