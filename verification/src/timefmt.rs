//! Timestamps: Unix seconds in memory, RFC 3339 text in the snapshot
//! and on screen. The rendering and parsing of the text itself is
//! chrono's, behind trusted wrappers.

use vstd::prelude::*;
use vstd::string::StrSliceExecFns;
use vstd::string::StringExecFns;

use crate::format::{chars_to_string, str_chars_vec};
use crate::jsontext::json_plain;

verus! {

/// The first second of year 0: from here on the rendered year has the
/// four digits that RFC 3339 text carries.
pub const TS_MIN: i64 = -62_167_219_200;

/// The last second of year 9999: the other end of the four-digit
/// years.
pub const TS_MAX: i64 = 253_402_300_799;

/// A timestamp the snapshot can hold: its year is rendered with four
/// digits, which is the form the parser reads back.
pub open spec fn ts_in_range(ts: i64) -> bool {
    TS_MIN <= ts <= TS_MAX
}

/// The RFC 3339 rendering of a timestamp.
pub uninterp spec fn rfc3339_of(ts: i64) -> Seq<char>;

/// What parsing an RFC 3339 string gives back, if anything.
pub uninterp spec fn rfc3339_parse(s: Seq<char>) -> Option<i64>;

/// Relies on chrono's `DateTime::from_timestamp` and `to_rfc3339`:
/// rendering depends on the timestamp alone, and every timestamp of
/// years 0 to 9999 renders. For those years the text is the fixed
/// 25-character `YYYY-MM-DDTHH:MM:SS+00:00` layout — digits and
/// punctuation only, so no quote, backslash or control character —
/// and `parse_from_rfc3339` reads the four-digit year back to the
/// same instant (chrono guarantees `timestamp` round-trips with
/// `from_timestamp`).
#[verifier::external_body]
pub(crate) fn fmt_rfc3339(ts: i64) -> (r: Option<String>)
    ensures
        ts_in_range(ts) ==> r is Some,
        r is Some ==> r.unwrap()@ == rfc3339_of(ts),
        r is Some && ts_in_range(ts) ==> rfc3339_parse(rfc3339_of(ts)) == Option::<i64>::Some(ts)
            && json_plain(rfc3339_of(ts)) && rfc3339_of(ts).len() == 25 && rfc3339_of(ts)[10]
            == 'T',
{
    chrono::DateTime::<chrono::Utc>::from_timestamp(ts, 0).map(|d| d.to_rfc3339())
}

/// Relies on chrono's `DateTime::parse_from_rfc3339` and `timestamp`:
/// the outcome depends on the characters alone.
#[verifier::external_body]
pub(crate) fn parse_rfc3339(s: &str) -> (r: Option<i64>)
    ensures
        r == rfc3339_parse(s@),
{
    chrono::DateTime::parse_from_rfc3339(s).ok().map(|d| d.timestamp())
}

/// Relies on chrono's `Utc::now` and `timestamp`: the current Unix
/// second, whatever it is.
#[verifier::external_body]
pub(crate) fn now_ts() -> i64 {
    chrono::Utc::now().timestamp()
}

/// How a timestamp is shown in listings: `YYYY-MM-DD HH:MM`, cut from
/// the RFC 3339 text; outside the fixed-layout years, a question mark.
pub open spec fn display_ts_spec(ts: i64) -> Seq<char> {
    if 0 <= ts <= TS_MAX {
        rfc3339_of(ts).subrange(0, 10) + seq![' '] + rfc3339_of(ts).subrange(11, 16)
    } else {
        "?"@
    }
}

/// Render a timestamp for listings.
pub fn display_ts(ts: i64) -> (r: String)
    ensures
        r@ == display_ts_spec(ts),
{
    if 0 <= ts && ts <= TS_MAX {
        match fmt_rfc3339(ts) {
            Option::Some(s) => {
                let chars = str_chars_vec(s.as_str());
                let mut out: Vec<char> = Vec::new();
                let mut i: usize = 0;
                while i < 10
                    invariant
                        0 <= i <= 10,
                        chars@ == rfc3339_of(ts),
                        chars@.len() == 25,
                        out@ == rfc3339_of(ts).subrange(0, i as int),
                    decreases 10 - i,
                {
                    out.push(chars[i]);
                    assert(out@ =~= rfc3339_of(ts).subrange(0, i + 1 as int));
                    i = i + 1;
                }
                out.push(' ');
                let mut j: usize = 11;
                while j < 16
                    invariant
                        11 <= j <= 16,
                        chars@ == rfc3339_of(ts),
                        chars@.len() == 25,
                        out@ == rfc3339_of(ts).subrange(0, 10) + seq![' '] + rfc3339_of(
                            ts,
                        ).subrange(11, j as int),
                    decreases 16 - j,
                {
                    out.push(chars[j]);
                    assert(out@ =~= rfc3339_of(ts).subrange(0, 10) + seq![' '] + rfc3339_of(
                        ts,
                    ).subrange(11, j + 1 as int));
                    j = j + 1;
                }
                chars_to_string(&out)
            },
            Option::None => {
                proof {
                    assert(false);
                }
                String::from_str("?")
            },
        }
    } else {
        String::from_str("?")
    }
}

} // verus!
