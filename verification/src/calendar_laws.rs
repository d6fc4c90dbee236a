//! The civil calendar, day by day.

use vstd::prelude::*;

use crate::calendar::{
    civil_day, date_before, days_before_month, first_of_month, has_date, is_date, iso_date, leap,
    lemma_date_of, lemma_date_on, lemma_days_follow, lemma_year_days, lemma_year_step, monday,
    month_days,
};
use crate::text::decimal_value;
use crate::words::{lemma_padded_reads_back, ten_to};

verus! {

/// The year has a 29th of February.
pub open spec fn has_leap_day(year: int) -> bool {
    ||| year % 400 == 0
    ||| year % 4 == 0 && year % 100 != 0
}

/// Last day of a month.
pub open spec fn last_of_month(year: int, month: int) -> int {
    if month == 2 {
        if has_leap_day(year) {
            29
        } else {
            28
        }
    } else if month == 4 || month == 6 || month == 9 || month == 11 {
        30
    } else {
        31
    }
}

/// The date behind a date.
pub open spec fn tomorrow(date: (int, int, int)) -> (int, int, int) {
    if date.2 < last_of_month(date.0, date.1) {
        (date.0, date.1, date.2 + 1)
    } else if date.1 < 12 {
        (date.0, date.1 + 1, 1)
    } else {
        (date.0 + 1, 1, 1)
    }
}

/// Days count from the first of January 1970, and the number of the next date
/// is one more: months have 31 or 30 days, February 28 or 29.
pub proof fn lemma_days_count_dates(date: (int, int, int))
    requires
        1 <= date.1 <= 12,
        1 <= date.2 <= last_of_month(date.0, date.1),
    ensures
        civil_day((1_970, 1, 1)) == 0,
        civil_day(tomorrow(date)) == civil_day(date) + 1,
        -262_143 <= date.0 <= 262_142 ==> is_date(date),
{
    assert(leap(date.0) == if has_leap_day(date.0) {
        1int
    } else {
        0int
    });
    assert(month_days(date.0, date.1) == last_of_month(date.0, date.1));
    lemma_year_days(date.0);
    lemma_year_step(date.0);
    assert(days_before_month(date.0, date.1 + 1) == days_before_month(date.0, date.1) + month_days(
        date.0,
        date.1,
    ));
}

/// A day has one date, and the month that holds it starts with the first of
/// the month of this date.
pub proof fn lemma_day_lies_in_its_month(day: int, date: (int, int, int))
    requires
        has_date(day),
        -262_143 <= date.0 <= 262_142,
        1 <= date.1 <= 12,
    ensures
        first_of_month(day) == Some(civil_day((date.0, date.1, 1))) <==> civil_day(
            (date.0, date.1, 1),
        ) <= day < civil_day((date.0, date.1, 1)) + last_of_month(date.0, date.1),
{
    assert(day * 86_400 / 86_400 == day);
    let own = lemma_date_on(day);
    lemma_date_of(day * 86_400, own);
    let first = (date.0, date.1, 1int);
    let start = (own.0, own.1, 1int);
    lemma_days_count_dates(first);
    lemma_days_count_dates(own);
    assert(civil_day(own) == civil_day(start) + own.2 - 1);
    if civil_day(first) <= day < civil_day(first) + last_of_month(date.0, date.1) {
        let other = (date.0, date.1, day - civil_day(first) + 1);
        lemma_days_count_dates(other);
        assert(civil_day(other) == day);
        lemma_date_of(day * 86_400, other);
    }
    if civil_day(start) == civil_day(first) {
        if start != first {
            if date_before(start, first) {
                lemma_days_follow(start, first);
            } else {
                lemma_days_follow(first, start);
            }
        }
    }
}

/// Weeks are seven days and start on a Monday, as 1970-01-05 was one.
pub proof fn lemma_day_lies_in_its_week(day: int, start: int)
    ensures
        monday(4) == 4,
        monday(day) == start <==> start <= day < start + 7 && (start - 4) % 7 == 0,
{
}

/// The text of a date is its year, month and day in four, two and two digits,
/// with a hyphen between.
pub proof fn lemma_date_text(date: (int, int, int))
    requires
        is_date(date),
        0 <= date.0 <= 9_999,
    ensures
        iso_date(date).len() == 10,
        iso_date(date)[4] == '-',
        iso_date(date)[7] == '-',
        decimal_value(iso_date(date).subrange(0, 4)) == date.0,
        decimal_value(iso_date(date).subrange(5, 7)) == date.1,
        decimal_value(iso_date(date).subrange(8, 10)) == date.2,
{
    reveal_with_fuel(ten_to, 6);
    assert(ten_to(2) == 100);
    assert(ten_to(4) == 10_000);
    assert(date.0 as nat % 10_000 == date.0);
    assert(date.1 as nat % 100 == date.1);
    assert(date.2 as nat % 100 == date.2);
    lemma_padded_reads_back(date.0 as nat, 4);
    lemma_padded_reads_back(date.1 as nat, 2);
    lemma_padded_reads_back(date.2 as nat, 2);
    let text = iso_date(date);
    assert(text.subrange(0, 4) =~= crate::text::padded(date.0 as nat, 4));
    assert(text.subrange(5, 7) =~= crate::text::padded(date.1 as nat, 2));
    assert(text.subrange(8, 10) =~= crate::text::padded(date.2 as nat, 2));
}

} // verus!
