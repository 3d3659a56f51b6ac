//! Dates of the Gregorian calendar, which is taken to hold for all years, and how they are written.
//!
//! Days are counted from 1970-01-01, which is day 0.

use vstd::prelude::*;

use crate::text::{decimal, two_digits};

verus! {

/// A date.
#[verifier::ext_equal]
pub struct Date {
    pub year: int,
    pub month: int,
    pub day: int,
}

/// Whether a year has a 29th of February.
pub open spec fn is_leap_year(year: int) -> bool {
    year % 4 == 0 && (year % 100 != 0 || year % 400 == 0)
}

/// The number of days in a month.
pub open spec fn days_in_month(year: int, month: int) -> int {
    if month == 2 {
        if is_leap_year(year) {
            29
        } else {
            28
        }
    } else if month == 4 || month == 6 || month == 9 || month == 11 {
        30
    } else {
        31
    }
}

/// The first day of a year. Before the year 1970 there are 477 leap years from the year 1 on.
pub open spec fn first_day(year: int) -> int {
    365 * (year - 1970) + (year - 1) / 4 - (year - 1) / 100 + (year - 1) / 400 - 477
}

/// The number of days in a year before a month.
pub open spec fn days_before(year: int, month: int) -> int
    decreases month,
{
    if month <= 1 {
        0
    } else {
        days_before(year, month - 1) + days_in_month(year, month - 1)
    }
}

impl Date {
    /// Whether the month and the day exist.
    pub open spec fn valid(self) -> bool {
        1 <= self.month <= 12 && 1 <= self.day <= days_in_month(self.year, self.month)
    }

    /// The day that the date is.
    pub open spec fn number(self) -> int {
        first_day(self.year) + days_before(self.year, self.month) + self.day - 1
    }
}

/// The date of a day.
pub open spec fn date_of(number: int) -> Date {
    choose|date: Date| date.valid() && #[trigger] date.number() == number
}

/// A year has 366 days if it is a leap year, else 365.
proof fn lemma_year_length(year: int)
    ensures
        first_day(year + 1) - first_day(year) == (if is_leap_year(year) {
            366int
        } else {
            365int
        }),
{
}

/// The months of a year fill it.
proof fn lemma_months(year: int)
    ensures
        days_before(year, 12) + 31 == first_day(year + 1) - first_day(year),
{
    lemma_year_length(year);
    reveal_with_fuel(days_before, 13);
}

/// Every day has a date.
proof fn lemma_date_exists(number: int) -> (date: Date)
    ensures
        date.valid(),
        date.number() == number,
    decreases
            if number < 0 {
                -number
            } else {
                number
            },
{
    if number == 0 {
        let date = Date { year: 1970, month: 1, day: 1 };
        assert(first_day(1970) == 0);
        date
    } else if number > 0 {
        let d = lemma_date_exists(number - 1);
        lemma_months(d.year);
        if d.day < days_in_month(d.year, d.month) {
            Date { year: d.year, month: d.month, day: d.day + 1 }
        } else if d.month < 12 {
            Date { year: d.year, month: d.month + 1, day: 1 }
        } else {
            Date { year: d.year + 1, month: 1, day: 1 }
        }
    } else {
        let d = lemma_date_exists(number + 1);
        lemma_months(d.year - 1);
        if d.day > 1 {
            Date { year: d.year, month: d.month, day: d.day - 1 }
        } else if d.month > 1 {
            Date {
                year: d.year,
                month: d.month - 1,
                day: days_in_month(d.year, d.month - 1),
            }
        } else {
            Date { year: d.year - 1, month: 12, day: 31 }
        }
    }
}

/// The days of a month come after the days of the months before it.
proof fn lemma_days_before_monotone(year: int, a: int, b: int)
    requires
        1 <= a < b,
    ensures
        days_before(year, a) + days_in_month(year, a) <= days_before(year, b),
    decreases b,
{
    if a < b - 1 {
        lemma_days_before_monotone(year, a, b - 1);
    }
}

/// A date lies within its year, which ends where the next one begins.
pub proof fn law_within_year(date: Date)
    requires
        date.valid(),
    ensures
        first_day(date.year) <= date.number() < first_day(date.year + 1),
{
    lemma_months(date.year);
    if date.month > 1 {
        lemma_days_before_monotone(date.year, 1, date.month);
    }
    if date.month < 12 {
        lemma_days_before_monotone(date.year, date.month, 12);
    }
}

/// No two dates are the same day.
proof fn lemma_date_unique(a: Date, b: Date)
    requires
        a.valid(),
        b.valid(),
        a.number() == b.number(),
    ensures
        a == b,
{
    law_within_year(a);
    law_within_year(b);
    assert(a.year == b.year);
    if a.month < b.month {
        lemma_days_before_monotone(a.year, a.month, b.month);
    }
    if b.month < a.month {
        lemma_days_before_monotone(a.year, b.month, a.month);
    }
}

/// Every day has exactly one date.
pub proof fn law_date_of(number: int, date: Date)
    ensures
        date_of(number).valid(),
        date_of(number).number() == number,
        date_of(number) == date <==> date.valid() && date.number() == number,
{
    let found = lemma_date_exists(number);
    assert(found.valid() && found.number() == number);
    if date.valid() && date.number() == number {
        lemma_date_unique(date_of(number), date);
    }
}

/// A number below ten thousand in decimal, with four digits.
pub open spec fn four_digits(n: int) -> Seq<char> {
    two_digits(n / 100) + two_digits(n % 100)
}

/// A year of at most four digits is written with four. Any other year has a sign, and at least
/// four digits.
pub open spec fn year_text(year: int) -> Seq<char> {
    if 0 <= year <= 9999 {
        four_digits(year)
    } else if year > 9999 {
        seq!['+'] + decimal(year as nat)
    } else if year >= -9999 {
        seq!['-'] + four_digits(-year)
    } else {
        seq!['-'] + decimal((-year) as nat)
    }
}

} // verus!
