//! The date-range resolver: user-supplied start/end strings (bare
//! `YYYY-MM-DD` dates or full timestamps) become a concrete inclusive
//! UTC millisecond range, with a default lookback of thirty days when a
//! bound is omitted.
//!
//! String parsing is chrono's; everything after it — end-of-day
//! placement, day arithmetic, defaulting — is verified here.

use vstd::prelude::*;
use vstd::arithmetic::div_mod::lemma_mod_multiples_vanish;

use crate::dates::{day_number, epoch_days_of_ymd, valid_ymd, END_OF_DAY_MILLIS, MILLIS_PER_DAY};
use crate::errors::{DateField, VendingError};

verus! {

/// The default lookback when no start is supplied: thirty days, in
/// milliseconds.
pub const DEFAULT_LOOKBACK_MILLIS: i64 = 2_592_000_000;

pub uninterp spec fn rfc3339_millis_of(s: Seq<char>) -> Option<i64>;

pub uninterp spec fn bare_date_of(s: Seq<char>) -> Option<(i64, u8, u8)>;

/// Relies on chrono's `DateTime<Utc>` string parsing (a relaxed RFC 3339
/// form): whether and as which instant a string parses depends on its
/// characters alone; the instant is returned as epoch milliseconds.
#[verifier::external_body]
fn parse_rfc3339_millis(s: &str) -> (r: Option<i64>)
    ensures
        r == rfc3339_millis_of(s@),
{
    match s.parse::<chrono::DateTime<chrono::Utc>>() {
        Ok(dt) => Some(dt.timestamp_millis()),
        Err(_) => None,
    }
}

/// Relies on chrono's `NaiveDate::parse_from_str` with format
/// `%Y-%m-%d`: the outcome depends on the characters alone, and a parsed
/// `NaiveDate` always holds a valid proleptic-Gregorian date within
/// chrono's documented ±262,000-year range.
#[verifier::external_body]
fn parse_bare_date(s: &str) -> (r: Option<(i64, u8, u8)>)
    ensures
        r == bare_date_of(s@),
        r matches Some(t) ==> -400_000 <= t.0 <= 400_000 && valid_ymd(
            t.0 as int,
            t.1 as int,
            t.2 as int,
        ),
{
    match chrono::NaiveDate::parse_from_str(s, "%Y-%m-%d") {
        Ok(d) => Some((
            chrono::Datelike::year(&d) as i64,
            chrono::Datelike::month(&d) as u8,
            chrono::Datelike::day(&d) as u8,
        )),
        Err(_) => None,
    }
}

/// The instant a date string resolves to: a full timestamp parses as
/// itself; otherwise a bare date resolves to the first instant of that
/// day as a start, and to the last millisecond of it as an end.
pub open spec fn spec_parse_flexible(s: Seq<char>, is_end: bool) -> Option<int> {
    match rfc3339_millis_of(s) {
        Some(ms) => Some(ms as int),
        None => match bare_date_of(s) {
            Some(t) => Some(
                day_number(t.0 as int, t.1 as int, t.2 as int) * 86_400_000 + if is_end {
                    86_399_999int
                } else {
                    0int
                },
            ),
            None => None,
        },
    }
}

/// Parse a user-supplied date string: a full timestamp first, a bare
/// `YYYY-MM-DD` date second; anything else is an `InvalidDateFormat`
/// naming the offending field and value.
pub fn parse_flexible_date(date_str: &str, is_end_date: bool) -> (r: Result<i64, VendingError>)
    ensures
        r is Ok <==> spec_parse_flexible(date_str@, is_end_date) is Some,
        r matches Ok(ms) ==> spec_parse_flexible(date_str@, is_end_date) == Some(ms as int),
        r matches Err(e) ==> e matches VendingError::InvalidDateFormat { field, value }
            && value@ == date_str@ && field == (if is_end_date {
            DateField::EndDate
        } else {
            DateField::StartDate
        }),
{
    if let Some(ms) = parse_rfc3339_millis(date_str) {
        return Ok(ms);
    }
    if let Some((y, m, d)) = parse_bare_date(date_str) {
        let z = epoch_days_of_ymd(y, m, d);
        let ms = z * MILLIS_PER_DAY;
        if is_end_date {
            return Ok(ms + END_OF_DAY_MILLIS);
        } else {
            return Ok(ms);
        }
    }
    Err(
        VendingError::InvalidDateFormat {
            field: if is_end_date {
                DateField::EndDate
            } else {
                DateField::StartDate
            },
            value: date_str.to_owned(),
        },
    )
}

/// Resolve the optional start/end strings to a concrete inclusive range:
/// a missing start defaults to thirty days before `now_millis`, a
/// missing end to `now_millis`; an unparsable string fails with
/// `InvalidDateFormat` (the start is examined first). The resolver does
/// not require start <= end: an inverted range simply matches nothing
/// downstream.
pub fn resolve_date_range(
    start_date: Option<&String>,
    end_date: Option<&String>,
    now_millis: i64,
) -> (r: Result<(i64, i64), VendingError>)
    requires
        now_millis >= i64::MIN + DEFAULT_LOOKBACK_MILLIS,
    ensures
        r is Ok <==> ((start_date matches Some(s) ==> spec_parse_flexible(s@, false) is Some) && (
        end_date matches Some(s) ==> spec_parse_flexible(s@, true) is Some)),
        r matches Ok(range) ==> (match start_date {
            Some(s) => spec_parse_flexible(s@, false) == Some(range.0 as int),
            None => range.0 == now_millis - DEFAULT_LOOKBACK_MILLIS,
        }),
        r matches Ok(range) ==> (match end_date {
            Some(s) => spec_parse_flexible(s@, true) == Some(range.1 as int),
            None => range.1 == now_millis,
        }),
        r matches Err(e) ==> e matches VendingError::InvalidDateFormat { field, value } && ((
        start_date matches Some(s) && spec_parse_flexible(s@, false) is None && field
            == DateField::StartDate && value@ == s@) || (end_date matches Some(s)
            && spec_parse_flexible(s@, true) is None && field == DateField::EndDate && value@
            == s@)),
{
    let start = match start_date {
        Some(s) => match parse_flexible_date(s.as_str(), false) {
            Ok(v) => v,
            Err(e) => {
                return Err(e);
            },
        },
        None => now_millis - DEFAULT_LOOKBACK_MILLIS,
    };
    let end = match end_date {
        Some(s) => match parse_flexible_date(s.as_str(), true) {
            Ok(v) => v,
            Err(e) => {
                return Err(e);
            },
        },
        None => now_millis,
    };
    Ok((start, end))
}

/// Resolving one bare calendar date as a start names the very first
/// instant of that day (00:00:00.000 UTC: a multiple of a day's
/// milliseconds) and as an end the very last (23:59:59.999 UTC: exactly
/// 86,399,999 milliseconds later), so a day-level filter spans the whole
/// final day.
pub proof fn lemma_bare_date_start_end(s: Seq<char>)
    requires
        rfc3339_millis_of(s) is None,
        bare_date_of(s) is Some,
    ensures
        spec_parse_flexible(s, false) is Some,
        spec_parse_flexible(s, true) is Some,
        spec_parse_flexible(s, false) matches Some(st) ==> st % 86_400_000 == 0
            && spec_parse_flexible(s, true) == Some(st + 86_399_999),
{
    match bare_date_of(s) {
        Some(t) => {
            let dn = day_number(t.0 as int, t.1 as int, t.2 as int);
            assert(dn * 86_400_000 == 86_400_000 * dn) by (nonlinear_arith);
            lemma_mod_multiples_vanish(dn, 0, 86_400_000);
        },
        None => {},
    }
}

} // verus!
