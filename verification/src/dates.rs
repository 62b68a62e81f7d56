//! Calendar dates and the chrono calls that compute with them.

use vstd::prelude::*;
use chrono::Datelike;

verus! {

/// A calendar date (proleptic Gregorian), as chrono's `NaiveDate` holds it.
#[derive(Clone, Copy, Debug, PartialEq, Eq, Structural)]
pub struct Date {
    pub year: i32,
    pub month: u32,
    pub day: u32,
}

/// Smallest year chrono's `NaiveDate` represents.
pub open spec fn min_year() -> int {
    -262143
}

/// Largest year chrono's `NaiveDate` represents.
pub open spec fn max_year() -> int {
    262142
}

pub open spec fn is_leap(y: int) -> bool {
    (y % 4 == 0 && y % 100 != 0) || y % 400 == 0
}

pub open spec fn days_in_month(y: int, m: int) -> int {
    if m == 2 {
        if is_leap(y) {
            29
        } else {
            28
        }
    } else if m == 4 || m == 6 || m == 9 || m == 11 {
        30
    } else {
        31
    }
}

/// A year, month and day that name a date chrono can represent.
pub open spec fn valid_ymd(y: int, m: int, d: int) -> bool {
    min_year() <= y <= max_year() && 1 <= m <= 12 && 1 <= d <= days_in_month(y, m)
}

pub open spec fn valid_date(d: Date) -> bool {
    valid_ymd(d.year as int, d.month as int, d.day as int)
}

/// Days from 1970-01-01 to the given date (negative before it).
pub open spec fn day_number(y: int, m: int, d: int) -> int {
    let yy = if m <= 2 {
        y - 1
    } else {
        y
    };
    let era = yy / 400;
    let yoe = yy - era * 400;
    let mp = if m > 2 {
        m - 3
    } else {
        m + 9
    };
    let doy = (153 * mp + 2) / 5 + d - 1;
    let doe = yoe * 365 + yoe / 4 - yoe / 100 + doy;
    era * 146097 + doe - 719468
}

pub open spec fn date_number(d: Date) -> int {
    day_number(d.year as int, d.month as int, d.day as int)
}

/// Day number of chrono's `NaiveDate::MIN`.
pub open spec fn first_number() -> int {
    day_number(min_year(), 1, 1)
}

/// Day number of chrono's `NaiveDate::MAX`.
pub open spec fn last_number() -> int {
    day_number(max_year(), 12, 31)
}

/// `NaiveDate::from_ymd_opt`: a date exactly when the triple names one in chrono's range.
#[verifier::external_body]
pub(crate) fn date_from_ymd(year: i32, month: u32, day: u32) -> (r: Option<Date>)
    ensures
        r is Some <==> valid_ymd(year as int, month as int, day as int),
        r matches Some(x) ==> x == (Date { year, month, day }),
{
    chrono::NaiveDate::from_ymd_opt(year, month, day).map(|_| Date { year, month, day })
}

/// What `NaiveDate::checked_add_signed(TimeDelta::days(days))` returns for a date.
pub uninterp spec fn date_shifted(d: Date, days: int) -> Option<Date>;

/// `NaiveDate::checked_add_signed(TimeDelta::days(days))`: the date `days` days later,
/// when that date is within chrono's range.
#[verifier::external_body]
pub(crate) fn date_add_days(d: Date, days: i64) -> (r: Option<Date>)
    requires
        valid_date(d),
        -1_000_000 <= days <= 1_000_000,
    ensures
        r == date_shifted(d, days as int),
        r is Some <==> first_number() <= date_number(d) + days <= last_number(),
        r matches Some(x) ==> valid_date(x) && date_number(x) == date_number(d) + days,
{
    let start = chrono::NaiveDate::from_ymd_opt(d.year, d.month, d.day).unwrap();
    start.checked_add_signed(chrono::TimeDelta::days(days)).map(
        |x| Date { year: x.year(), month: x.month(), day: x.day() },
    )
}

/// `NaiveDate < NaiveDate`: chronological order.
#[verifier::external_body]
pub(crate) fn date_before(a: Date, b: Date) -> (r: bool)
    requires
        valid_date(a),
        valid_date(b),
    ensures
        r == (date_number(a) < date_number(b)),
{
    chrono::NaiveDate::from_ymd_opt(a.year, a.month, a.day).unwrap()
        < chrono::NaiveDate::from_ymd_opt(b.year, b.month, b.day).unwrap()
}

/// `n` as decimal digits, zero-padded on the left to `width`.
pub open spec fn padded(n: nat, width: nat) -> Seq<char>
    decreases width,
{
    if width == 0 {
        if n == 0 {
            seq![]
        } else {
            crate::json::digits(n)
        }
    } else {
        padded(n / 10, (width - 1) as nat).push(crate::json::digit_char(n % 10))
    }
}

/// How `NaiveDate` displays: `YYYY-MM-DD` for years 0 to 9999, otherwise the year with
/// an explicit sign and at least four digits.
pub open spec fn date_text_spec(d: Date) -> Seq<char> {
    let y = d.year as int;
    let year = if 0 <= y <= 9999 {
        padded(y as nat, 4)
    } else if y < 0 {
        seq!['-'] + padded((-y) as nat, 4)
    } else {
        seq!['+'] + padded(y as nat, 4)
    };
    year + seq!['-'] + padded(d.month as nat, 2) + seq!['-'] + padded(d.day as nat, 2)
}

/// `Display` of `NaiveDate`.
#[verifier::external_body]
pub(crate) fn date_text(d: Date) -> (r: String)
    requires
        valid_date(d),
    ensures
        r@ == date_text_spec(d),
{
    chrono::NaiveDate::from_ymd_opt(d.year, d.month, d.day).unwrap().to_string()
}

/// `Local::now().date_naive()`: today's date on this machine's clock and time zone.
/// Nothing is claimed of which date it is.
#[verifier::external_body]
pub(crate) fn local_today() -> (r: Date)
    ensures
        valid_date(r),
{
    let t = chrono::Local::now().date_naive();
    Date { year: t.year(), month: t.month(), day: t.day() }
}

/// `Utc::now().to_rfc3339()`: the current instant as RFC 3339 text. Nothing is claimed
/// of the text: it depends on the clock.
#[verifier::external_body]
pub(crate) fn utc_now_text() -> (r: String) {
    chrono::Utc::now().to_rfc3339()
}

/// Whether `DateTime::parse_from_rfc3339` accepts a text.
pub uninterp spec fn rfc3339_parses(s: Seq<char>) -> bool;

/// Whole days from the instant that `DateTime::parse_from_rfc3339` reads in `updated` to
/// `Local::now()` (`signed_duration_since(..).num_days()`), or `None` when the text does
/// not parse. Which number comes back depends on the clock; that it comes back exactly
/// when the text parses is claimed.
#[verifier::external_body]
pub(crate) fn days_since(updated: &str) -> (r: Option<i64>)
    ensures
        r is Some <==> rfc3339_parses(updated@),
{
    match chrono::DateTime::parse_from_rfc3339(updated) {
        Ok(t) => Some(
            chrono::Local::now().signed_duration_since(t.with_timezone(&chrono::Local)).num_days(),
        ),
        Err(_) => None,
    }
}

/// The date that `updated` (RFC 3339) falls on in this machine's time zone, as SQLite's
/// `date(.., 'localtime')` reads it, or `None` when chrono cannot parse it. Which date comes
/// back depends on the time zone: only that it is a valid date is claimed.
#[verifier::external_body]
pub(crate) fn local_date_of(updated: &str) -> (r: Option<Date>)
    ensures
        r is Some <==> rfc3339_parses(updated@),
        r matches Some(x) ==> valid_date(x),
{
    match chrono::DateTime::parse_from_rfc3339(updated) {
        Ok(t) => {
            let d = t.with_timezone(&chrono::Local).date_naive();
            Some(Date { year: d.year(), month: d.month(), day: d.day() })
        },
        Err(_) => None,
    }
}

} // verus!
