//! UTC days, weeks and months.

use chrono::Datelike;
use vstd::prelude::*;

use crate::error::{Error, Result};
use crate::text::padded;

verus! {

/// Length of one hour in seconds.
pub const SECONDS_PER_HOUR: u64 = 3_600;

/// Length of one day in seconds.
pub const SECONDS_PER_DAY: u64 = 86_400;

/// Start of the year 10000 in Unix seconds.
pub const YEAR_10000: i64 = 253_402_300_800;

/// Start of the hour that holds `epoch`.
pub fn floor_hour(epoch: u64) -> (start: u64)
    ensures
        start == epoch - epoch % 3_600,
        start % 3_600 == 0,
{
    epoch - epoch % SECONDS_PER_HOUR
}

/// Start of the UTC day that holds `epoch`.
pub fn floor_day(epoch: u64) -> (start: u64)
    ensures
        start == epoch - epoch % 86_400,
        start % 86_400 == 0,
{
    epoch - epoch % SECONDS_PER_DAY
}

/// Earliest year that a date can have.
pub const MIN_YEAR: i32 = -262_143;

/// Latest year that a date can have.
pub const MAX_YEAR: i32 = 262_142;

/// One in a leap year of the Gregorian calendar.
pub open spec fn leap(year: int) -> int {
    if year % 4 == 0 && (year % 100 != 0 || year % 400 == 0) {
        1
    } else {
        0
    }
}

/// Days of a month.
pub open spec fn month_days(year: int, month: int) -> int {
    if month == 2 {
        28 + leap(year)
    } else if month == 4 || month == 6 || month == 9 || month == 11 {
        30
    } else {
        31
    }
}

/// Days of the year before a month.
pub open spec fn days_before_month(year: int, month: int) -> int
    decreases month,
{
    if month <= 1 {
        0
    } else {
        days_before_month(year, month - 1) + month_days(year, month - 1)
    }
}

/// Days from the first day of the year 1 to that of another year.
pub open spec fn days_before_year(year: int) -> int {
    let past = year - 1;
    365 * past + past / 4 - past / 100 + past / 400
}

/// The day of a date, counted from the Unix epoch.
pub open spec fn civil_day(date: (int, int, int)) -> int {
    days_before_year(date.0) + days_before_month(date.0, date.1) + date.2 - 1 - 719_162
}

/// Year, month and day are those of a date.
pub open spec fn is_date(date: (int, int, int)) -> bool {
    &&& MIN_YEAR <= date.0 <= MAX_YEAR
    &&& 1 <= date.1 <= 12
    &&& 1 <= date.2 <= month_days(date.0, date.1)
}

/// A date has this day.
pub open spec fn has_date(day: int) -> bool {
    civil_day((MIN_YEAR as int, 1, 1)) <= day <= civil_day((MAX_YEAR as int, 12, 31))
}

/// The date falls on the day, counted from the Unix epoch.
pub open spec fn falls_on(date: (int, int, int), day: int) -> bool {
    is_date(date) && civil_day(date) == day
}

/// The date that falls on a day.
pub open spec fn date_on(day: int) -> (int, int, int) {
    choose|date: (int, int, int)| falls_on(date, day)
}

/// Year, month and day of the UTC date that holds a Unix second.
pub open spec fn utc_date(seconds: int) -> Option<(int, int, int)> {
    if has_date(seconds / 86_400) {
        Some(date_on(seconds / 86_400))
    } else {
        None
    }
}

/// A month ends before a later one starts.
proof fn lemma_months_follow(year: int, month: int, later: int)
    requires
        1 <= month < later <= 13,
    ensures
        days_before_month(year, month) + month_days(year, month) <= days_before_month(year, later),
    decreases later - month,
{
    if month + 1 < later {
        lemma_months_follow(year, month, later - 1);
    }
}

/// A year starts behind an earlier one.
proof fn lemma_years_follow(year: int, later: int)
    requires
        year < later,
    ensures
        days_before_year(year) + 365 + leap(year) <= days_before_year(later),
    decreases later - year,
{
    lemma_year_step(later - 1);
    if year + 1 < later {
        lemma_years_follow(year, later - 1);
    }
}

/// The days of a year.
pub(crate) proof fn lemma_year_days(year: int)
    ensures
        days_before_month(year, 13) == 365 + leap(year),
{
    reveal_with_fuel(days_before_month, 13);
}

/// Earlier dates have earlier days.
pub(crate) proof fn lemma_days_follow(a: (int, int, int), b: (int, int, int))
    requires
        is_date(a),
        is_date(b),
        date_before(a, b),
    ensures
        civil_day(a) < civil_day(b),
{
    if a.0 < b.0 {
        lemma_years_follow(a.0, b.0);
        lemma_year_days(a.0);
        lemma_months_follow(a.0, a.1, 13);
        if b.1 > 1 {
            lemma_months_follow(b.0, 1, b.1);
        }
    } else if a.1 < b.1 {
        lemma_months_follow(a.0, a.1, b.1);
    }
}

/// Every day of the calendar has a date.
pub(crate) proof fn lemma_date_on(day: int) -> (date: (int, int, int))
    requires
        has_date(day),
    ensures
        falls_on(date, day),
    decreases day - civil_day((MIN_YEAR as int, 1, 1)),
{
    if day == civil_day((MIN_YEAR as int, 1, 1)) {
        (MIN_YEAR as int, 1int, 1int)
    } else {
        let past = lemma_date_on(day - 1);
        if past.2 < month_days(past.0, past.1) {
            (past.0, past.1, past.2 + 1)
        } else if past.1 < 12 {
            (past.0, past.1 + 1, 1int)
        } else {
            lemma_year_days(past.0);
            lemma_year_step(past.0);
            (past.0 + 1, 1int, 1int)
        }
    }
}

/// A year starts behind the days of the one before.
pub(crate) proof fn lemma_year_step(year: int)
    ensures
        days_before_year(year + 1) == days_before_year(year) + 365 + leap(year),
{
}

/// The date of a second is the one that falls on its day.
pub(crate) proof fn lemma_date_of(seconds: int, date: (int, int, int))
    requires
        falls_on(date, seconds / 86_400),
        has_date(seconds / 86_400),
    ensures
        utc_date(seconds) == Some(date),
{
    let chosen = date_on(seconds / 86_400);
    assert(falls_on(chosen, seconds / 86_400));
    if chosen != date {
        if date_before(chosen, date) {
            lemma_days_follow(chosen, date);
        } else {
            assert(date_before(date, chosen));
            lemma_days_follow(date, chosen);
        }
    }
}

/// `a` is an earlier date than `b`.
pub open spec fn date_before(a: (int, int, int), b: (int, int, int)) -> bool {
    a.0 < b.0 || (a.0 == b.0 && (a.1 < b.1 || (a.1 == b.1 && a.2 < b.2)))
}

/// `chrono::DateTime::from_timestamp` and the date of its result.
///
/// Taken without proof: there is a date exactly where the calendar has one for
/// the day of the second, and it is the date of the Gregorian calendar that
/// falls on this day.
#[verifier::external_body]
fn date_at(seconds: i64) -> (date: Option<(i32, u32, u32)>)
    ensures
        date is Some <==> has_date(seconds as int / 86_400),
        date is Some ==> falls_on(
            ((date->0).0 as int, (date->0).1 as int, (date->0).2 as int),
            seconds as int / 86_400,
        ),
{
    let date = chrono::DateTime::<chrono::Utc>::from_timestamp(seconds, 0)?.date_naive();
    Some((date.year(), date.month(), date.day()))
}

/// `chrono::NaiveDate::from_ymd_opt` and the timestamp of its UTC midnight.
///
/// Taken without proof: there is a second exactly where the parts are those of
/// a date, and it is the first of the day on which this date falls.
#[verifier::external_body]
fn midnight(year: i32, month: u32, day: u32) -> (seconds: Option<i64>)
    ensures
        seconds is Some <==> is_date((year as int, month as int, day as int)),
        seconds is Some ==> seconds->0 == civil_day((year as int, month as int, day as int))
            * 86_400,
{
    let date = chrono::NaiveDate::from_ymd_opt(year, month, day)?;
    Some(date.and_hms_opt(0, 0, 0)?.and_utc().timestamp())
}

/// The Unix second that `NaiveDate::parse_from_str` with `%Y-%m-%d` reads as a
/// date and that starts this date in UTC.
pub uninterp spec fn parsed_date(text: Seq<char>) -> Option<int>;

/// `chrono::NaiveDate::parse_from_str` with `%Y-%m-%d`, and the timestamp of
/// the UTC midnight of its result.
///
/// Taken without proof: the second depends on the text alone (`parsed_date`),
/// and the text of a UTC date from 1970 to 9999 (`utc_date_text`) reads as that
/// date.
#[verifier::external_body]
fn parse_date(text: &str) -> (seconds: Option<i64>)
    ensures
        match seconds {
            None => parsed_date(text@) is None,
            Some(second) => parsed_date(text@) == Some(second as int),
        },
        forall|t: int|
            0 <= t < YEAR_10000 && #[trigger] utc_date_text(t) == Some(text@) ==> seconds is Some
                && seconds->0 == t - t % 86_400,
{
    let date = chrono::NaiveDate::parse_from_str(text, "%Y-%m-%d").ok()?;
    Some(date.and_hms_opt(0, 0, 0)?.and_utc().timestamp())
}

/// The period start of a day text: a UTC midnight that is not negative.
pub open spec fn day_text_epoch(text: Seq<char>) -> Option<u64> {
    match parsed_date(text) {
        Some(second) if 0 <= second => Some(second as u64),
        _ => None,
    }
}

/// The Unix second that starts the UTC date written as `value`.
///
/// A day that `day_string` wrote reads back.
pub fn parse_day(value: &str) -> (epoch: Result<u64>)
    ensures
        match epoch {
            Ok(second) => day_text_epoch(value@) == Some(second),
            Err(error) => {
                &&& day_text_epoch(value@) is None
                &&& error == Error::Invalid("period day is not a UTC date on or after 1970")
            },
        },
        forall|day: u32|
            day * 86_400 < YEAR_10000 && #[trigger] day_text(day as int) == Some(value@)
                ==> epoch == Ok::<u64, Error>((day * 86_400) as u64),
{
    match parse_date(value) {
        Some(second) => {
            if second >= 0 {
                Ok(second as u64)
            } else {
                Err(Error::Invalid("period day is not a UTC date on or after 1970"))
            }
        },
        None => Err(Error::Invalid("period day is not a UTC date on or after 1970")),
    }
}

/// Monday on or before a day, as days since the Unix epoch.
pub open spec fn monday(day: int) -> int {
    day - (day + 3) % 7
}

/// Monday on or before `day`.
pub fn week_start(day: u32) -> (start: u32)
    requires
        4 <= day <= u32::MAX - 3,
    ensures
        start == monday(day as int),
        day - 6 <= start <= day,
        (start + 3) % 7 == 0,
        forall|earlier: int| earlier <= day ==> #[trigger] monday(earlier) <= start,
{
    day - ((day + 3) % 7)
}

/// First day of the month that holds a day, as days since the Unix epoch.
pub open spec fn first_of_month(day: int) -> Option<int> {
    match utc_date(day * 86_400) {
        None => None,
        Some(date) => Some(civil_day((date.0, date.1, 1))),
    }
}

/// Days before the year 10000 have a date.
pub(crate) proof fn lemma_has_date(day: int)
    requires
        0 <= day,
        day * 86_400 < YEAR_10000,
    ensures
        has_date(day),
{
    reveal_with_fuel(days_before_month, 13);
}

/// First day of the month that holds `day`.
pub fn month_start(day: u32) -> (start: Result<u32>)
    ensures
        match start {
            Ok(first) => {
                &&& first_of_month(day as int) == Some(first as int)
                &&& first <= day
                &&& forall|earlier: int|
                    0 <= earlier <= day && (#[trigger] first_of_month(earlier)) is Some
                        ==> first_of_month(earlier)->0 <= first
            },
            Err(error) => {
                &&& utc_date(day * 86_400) is None
                &&& error == Error::Invalid("invalid UTC activity day")
            },
        },
        day * 86_400 < YEAR_10000 ==> start is Ok,
{
    let seconds: i64 = day as i64 * 86_400;
    proof {
        assert(seconds as int / 86_400 == day);
        if day * 86_400 < YEAR_10000 {
            lemma_has_date(day as int);
        }
    }
    match date_at(seconds) {
        None => Err(Error::Invalid("invalid UTC activity day")),
        Some(date) => {
            let ghost parts = (date.0 as int, date.1 as int, date.2 as int);
            let ghost first_day = (date.0 as int, date.1 as int, 1int);
            let first: Option<i64> = midnight(date.0, date.1, 1);
            proof {
                lemma_date_of(seconds as int, parts);
                assert(is_date(first_day));
                if parts != first_day {
                    lemma_days_follow(first_day, parts);
                }
                lemma_epoch_month(parts);
            }
            let second: i64 = first.unwrap();
            proof {
                assert(second as int / 86_400 == civil_day(first_day));
                assert forall|earlier: int|
                    0 <= earlier <= day && (#[trigger] first_of_month(earlier)) is Some implies
                    first_of_month(earlier)->0 <= civil_day(first_day) by {
                    lemma_months_in_order(earlier, day as int, parts);
                }
            }
            Ok((second / 86_400) as u32)
        },
    }
}

/// A date from 1970 on has a month that starts from 1970 on.
proof fn lemma_epoch_month(date: (int, int, int))
    requires
        is_date(date),
        civil_day(date) >= 0,
    ensures
        civil_day((date.0, date.1, 1)) >= 0,
{
    reveal_with_fuel(days_before_month, 13);
    if date.0 < 1_970 {
        lemma_days_follow(date, (1_970, 1, 1));
        assert(civil_day((1_970, 1, 1)) == 0);
    } else {
        if (date.0, date.1, 1int) != (1_970int, 1int, 1int) {
            lemma_days_follow((1_970, 1, 1), (date.0, date.1, 1));
        }
        assert(civil_day((1_970, 1, 1)) == 0);
    }
}

/// The month of an earlier day starts no later.
proof fn lemma_months_in_order(earlier: int, day: int, date: (int, int, int))
    requires
        earlier <= day,
        falls_on(date, day),
        has_date(day),
        utc_date(earlier * 86_400) is Some,
    ensures
        first_of_month(earlier)->0 <= civil_day((date.0, date.1, 1)),
{
    assert(earlier * 86_400 / 86_400 == earlier);
    let past = lemma_date_on(earlier);
    lemma_date_of(earlier * 86_400, past);
    if date_before(date, past) {
        lemma_days_follow(date, past);
    }
    let a = (past.0, past.1, 1int);
    let b = (date.0, date.1, 1int);
    if a != b {
        lemma_days_follow(a, b);
    }
}

/// The ISO 8601 text of a date in the years 0 to 9999.
pub open spec fn iso_date(date: (int, int, int)) -> Seq<char> {
    padded(date.0 as nat, 4) + seq!['-'] + padded(date.1 as nat, 2) + seq!['-'] + padded(
        date.2 as nat,
        2,
    )
}

/// The text of the UTC date that holds a Unix second.
pub uninterp spec fn utc_date_text(seconds: int) -> Option<Seq<char>>;

/// `chrono::DateTime::from_timestamp` and the `Display` text of its date.
///
/// Taken without proof: the text depends on the second alone
/// (`utc_date_text`); there is one exactly where there is a date; and in the
/// years 0 to 9999 it is the ISO 8601 text of this date.
#[verifier::external_body]
fn date_text(seconds: i64) -> (text: Option<String>)
    ensures
        match text {
            None => utc_date_text(seconds as int) is None,
            Some(written) => utc_date_text(seconds as int) == Some(written@),
        },
        text is Some <==> utc_date(seconds as int) is Some,
        text is Some && 0 <= (utc_date(seconds as int)->0).0 <= 9_999 ==> text->0@ == iso_date(
            utc_date(seconds as int)->0,
        ),
{
    let date = chrono::DateTime::<chrono::Utc>::from_timestamp(seconds, 0)?.date_naive();
    Some(date.to_string())
}

/// The text of a day, counted from the Unix epoch.
pub open spec fn day_text(day: int) -> Option<Seq<char>> {
    utc_date_text(day * 86_400)
}

/// The ISO 8601 text of `day`.
pub fn day_string(day: u32) -> (text: Result<String>)
    ensures
        match text {
            Ok(written) => day_text(day as int) == Some(written@),
            Err(error) => {
                &&& day_text(day as int) is None
                &&& error == Error::Invalid("invalid UTC activity day")
            },
        },
        day * 86_400 < YEAR_10000 ==> text is Ok,
{
    proof {
        assert(day * 86_400 / 86_400 == day);
        if day * 86_400 < YEAR_10000 {
            lemma_has_date(day as int);
        }
    }
    match date_text(day as i64 * 86_400) {
        Some(text) => Ok(text),
        None => Err(Error::Invalid("invalid UTC activity day")),
    }
}

} // verus!
