//! Calendar dates, as the first-run date is written: the day reckoned from
//! the count of days since 1 January 1970, and its text `YYYY-MM-DD`.

use vstd::prelude::*;
use vstd::string::*;
use crate::text::{decimal, digit, digit_text, render_decimal};

verus! {

/// `year` has 366 days.
pub open spec fn is_leap_year(year: int) -> bool {
    year % 4 == 0 && (year % 100 != 0 || year % 400 == 0)
}

/// The number of days of `year`.
pub open spec fn days_in_year(year: int) -> int {
    if is_leap_year(year) {
        366
    } else {
        365
    }
}

/// The number of days of the month `month` of `year`.
pub open spec fn days_in_month(year: int, month: int) -> int {
    if month == 2 {
        if is_leap_year(year) {
            29
        } else {
            28
        }
    } else if month == 4 || month == 6 || month == 9 || month == 11 {
        30
    } else {
        31
    }
}

/// The number of days from 1 January 1970 to 1 January of `year`.
pub open spec fn days_before_year(year: int) -> int
    decreases year,
{
    if year <= 1970 {
        0
    } else {
        days_before_year(year - 1) + days_in_year(year - 1)
    }
}

/// The number of days from 1 January of `year` to the first of its month
/// `month`.
pub open spec fn days_before_month(year: int, month: int) -> int
    decreases month,
{
    if month <= 1 {
        0
    } else {
        days_before_month(year, month - 1) + days_in_month(year, month - 1)
    }
}

/// What a date holds.
pub struct DateView {
    pub year: int,
    pub month: int,
    pub day: int,
}

impl DateView {
    /// The date is one of the calendar, not before 1970.
    pub open spec fn valid(self) -> bool {
        &&& 1970 <= self.year
        &&& 1 <= self.month <= 12
        &&& 1 <= self.day <= days_in_month(self.year, self.month)
    }

    /// The number of days from 1 January 1970 to the date.
    pub open spec fn day_number(self) -> int {
        days_before_year(self.year) + days_before_month(self.year, self.month) + self.day - 1
    }

    /// The date as text: the year, the month in two digits and the day in
    /// two digits, with dashes between them.
    pub open spec fn text(self) -> Seq<char> {
        decimal(self.year as nat) + "-"@ + two_digits(self.month as nat) + "-"@ + two_digits(
            self.day as nat,
        )
    }
}

/// `n`, below 100, in two decimal digits.
pub open spec fn two_digits(n: nat) -> Seq<char> {
    seq![digit(n / 10), digit(n % 10)]
}

/// The months of a year have as many days as the year.
pub proof fn lemma_months_fill_the_year(year: int)
    ensures
        days_before_month(year, 13) == days_in_year(year),
{
    reveal_with_fuel(days_before_month, 14);
}

/// A later month begins later.
pub proof fn lemma_days_before_month_grows(year: int, month: int, later: int)
    requires
        1 <= month <= later,
    ensures
        days_before_month(year, month) <= days_before_month(year, later),
    decreases later - month,
{
    if month < later {
        lemma_days_before_month_grows(year, month, later - 1);
    }
}

/// A later year begins later.
pub proof fn lemma_days_before_year_grows(year: int, later: int)
    requires
        year <= later,
    ensures
        days_before_year(year) <= days_before_year(later),
    decreases later - year,
{
    if year < later {
        lemma_days_before_year_grows(year, later - 1);
    }
}

/// Two valid dates with the same day number are the same date.
pub proof fn lemma_day_number_tells_dates_apart(a: DateView, b: DateView)
    requires
        a.valid(),
        b.valid(),
        a.day_number() == b.day_number(),
    ensures
        a == b,
{
    lemma_last_day_of_year(a);
    lemma_last_day_of_year(b);
    if a.year < b.year {
        lemma_days_before_year_grows(a.year + 1, b.year);
    } else if b.year < a.year {
        lemma_days_before_year_grows(b.year + 1, a.year);
    } else if a.month < b.month {
        lemma_days_before_month_grows(a.year, a.month + 1, b.month);
    } else if b.month < a.month {
        lemma_days_before_month_grows(a.year, b.month + 1, a.month);
    }
}

/// A valid date lies before the first day of the next month and of the
/// next year.
pub proof fn lemma_last_day_of_year(date: DateView)
    requires
        date.valid(),
    ensures
        days_before_year(date.year) <= date.day_number(),
        date.day_number() < days_before_year(date.year) + days_before_month(
            date.year,
            date.month + 1,
        ),
        date.day_number() < days_before_year(date.year + 1),
{
    lemma_months_fill_the_year(date.year);
    lemma_days_before_month_grows(date.year, date.month + 1, 13);
    lemma_days_before_month_grows(date.year, 1, date.month);
    assert(days_before_month(date.year, date.month + 1) == days_before_month(
        date.year,
        date.month,
    ) + days_in_month(date.year, date.month));
    assert(days_before_year(date.year + 1) == days_before_year(date.year) + days_in_year(
        date.year,
    ));
}

/// A day of the calendar, not before 1970.
#[derive(Clone, Copy, Debug)]
pub struct Date {
    year: u32,
    month: u8,
    day: u8,
}

impl View for Date {
    type V = DateView;

    closed spec fn view(&self) -> DateView {
        DateView { year: self.year as int, month: self.month as int, day: self.day as int }
    }
}

fn year_length(year: u32) -> (days: u32)
    ensures
        days == days_in_year(year as int),
{
    if year % 4 == 0 && (year % 100 != 0 || year % 400 == 0) {
        366
    } else {
        365
    }
}

fn month_length(year: u32, month: u8) -> (days: u32)
    ensures
        days == days_in_month(year as int, month as int),
{
    if month == 2 {
        if year_length(year) == 366 {
            29
        } else {
            28
        }
    } else if month == 4 || month == 6 || month == 9 || month == 11 {
        30
    } else {
        31
    }
}

impl Date {
    #[verifier::type_invariant]
    spec fn on_the_calendar(&self) -> bool {
        self@.valid()
    }

    /// The date that lies `days` days after 1 January 1970.
    pub fn from_days(days: u32) -> (date: Date)
        ensures
            date@.valid(),
            date@.day_number() == days,
    {
        let mut year: u32 = 1970;
        let mut rest: u32 = days;
        while rest >= year_length(year)
            invariant
                1970 <= year,
                rest <= days,
                days_before_year(year as int) + rest == days,
                365 * (year - 1970) <= days - rest,
            decreases rest,
        {
            rest = rest - year_length(year);
            year = year + 1;
        }
        let mut month: u8 = 1;
        proof {
            lemma_months_fill_the_year(year as int);
        }
        while rest >= month_length(year, month)
            invariant
                1 <= month <= 12,
                days_before_year(year as int) + days_before_month(year as int, month as int)
                    + rest == days,
                days_before_month(year as int, month as int) + rest < days_before_month(
                    year as int,
                    13,
                ),
            decreases 12 - month,
        {
            proof {
                if month == 12 {
                    assert(days_before_month(year as int, 13) == days_before_month(year as int, 12)
                        + days_in_month(year as int, 12));
                }
            }
            rest = rest - month_length(year, month);
            month = month + 1;
        }
        Date { year, month, day: (rest + 1) as u8 }
    }

    /// The year.
    pub fn year(&self) -> (year: u32)
        ensures
            year == self@.year,
    {
        self.year
    }

    /// The month, from 1 to 12.
    pub fn month(&self) -> (month: u8)
        ensures
            month == self@.month,
            1 <= month <= 12,
    {
        proof {
            use_type_invariant(self);
        }
        self.month
    }

    /// The day of the month, from 1.
    pub fn day(&self) -> (day: u8)
        ensures
            day == self@.day,
            1 <= day <= days_in_month(self@.year, self@.month),
    {
        proof {
            use_type_invariant(self);
        }
        self.day
    }

    /// The date as text, `YYYY-MM-DD`.
    pub fn render(&self) -> (text: String)
        ensures
            text@ == self@.text(),
    {
        proof {
            use_type_invariant(self);
        }
        let mut text = render_decimal(self.year);
        text.append("-");
        text.append(digit_text((self.month / 10) as u32));
        text.append(digit_text((self.month % 10) as u32));
        text.append("-");
        text.append(digit_text((self.day / 10) as u32));
        text.append(digit_text((self.day % 10) as u32));
        assert(text@ =~= self@.text());
        text
    }
}

} // verus!
