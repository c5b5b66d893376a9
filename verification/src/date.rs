//! Calendar dates.

use crate::text::{four_digits, push_four_digits, push_two_digits, two_digits};
use vstd::prelude::*;

verus! {

/// A day of the proleptic Gregorian calendar.
#[derive(Clone, Copy, Debug, PartialEq, Eq, Structural)]
pub struct Date {
    pub year: i32,
    pub month: u32,
    pub day: u32,
}

/// Whether `year` has a 29th of February.
pub open spec fn is_leap_year(year: int) -> bool {
    year % 4 == 0 && (year % 100 != 0 || year % 400 == 0)
}

/// The number of days of a month, for `month` from 1 to 12.
pub open spec fn days_in_month(year: int, month: int) -> int {
    if month == 2 {
        if is_leap_year(year) {
            29
        } else {
            28
        }
    } else if month == 4 || month == 6 || month == 9 || month == 11 {
        30
    } else {
        31
    }
}

/// The year as text: four digits from 0 to 9999, else a sign and at least
/// four digits.
pub open spec fn year_text(year: int) -> Seq<char> {
    if year < 0 {
        seq!['-'] + four_digits((-year) as nat)
    } else if year <= 9999 {
        four_digits(year as nat)
    } else {
        seq!['+'] + four_digits(year as nat)
    }
}

/// A date as text: year, month and day, joined by hyphens.
pub open spec fn date_text(date: Date) -> Seq<char> {
    year_text(date.year as int) + seq!['-'] + two_digits(date.month as nat) + seq!['-']
        + two_digits(date.day as nat)
}

fn leap(year: i32) -> (b: bool)
    ensures
        b == is_leap_year(year as int),
{
    year % 4 == 0 && (year % 100 != 0 || year % 400 == 0)
}

fn month_length(year: i32, month: u32) -> (n: u32)
    ensures
        n == days_in_month(year as int, month as int),
{
    if month == 2 {
        if leap(year) {
            29
        } else {
            28
        }
    } else if month == 4 || month == 6 || month == 9 || month == 11 {
        30
    } else {
        31
    }
}

impl Date {
    /// Whether the month and the day exist in the calendar.
    pub open spec fn is_calendar_date(self) -> bool {
        &&& 1 <= self.month <= 12
        &&& 1 <= self.day <= days_in_month(self.year as int, self.month as int)
    }

    /// Whether `self` is an earlier day than `other`.
    pub open spec fn before(self, other: Date) -> bool {
        self.year < other.year || (self.year == other.year && (self.month < other.month || (
        self.month == other.month && self.day < other.day)))
    }

    /// The date with the given fields, where that day exists.
    pub fn new(year: i32, month: u32, day: u32) -> (r: Option<Date>)
        ensures
            r == (if (Date { year, month, day }).is_calendar_date() {
                Some(Date { year, month, day })
            } else {
                None
            }),
    {
        if 1 <= month && month <= 12 && 1 <= day && day <= month_length(year, month) {
            Some(Date { year, month, day })
        } else {
            None
        }
    }

    /// Whether `self` is an earlier day than `other`.
    pub fn is_before(&self, other: &Date) -> (b: bool)
        ensures
            b == self.before(*other),
    {
        self.year < other.year || (self.year == other.year && (self.month < other.month || (
        self.month == other.month && self.day < other.day)))
    }

    /// The date as text, such as `2024-03-15`.
    pub fn text(&self) -> (r: String)
        ensures
            r@ == date_text(*self),
    {
        let mut out = String::new();
        if self.year < 0 {
            out.push('-');
            let magnitude: i64 = -(self.year as i64);
            push_four_digits(&mut out, magnitude as u32);
        } else {
            if self.year > 9999 {
                out.push('+');
            }
            push_four_digits(&mut out, self.year as u32);
        }
        out.push('-');
        push_two_digits(&mut out, self.month);
        out.push('-');
        push_two_digits(&mut out, self.day);
        out
    }
}

/// Days are in one order: no day is before itself, a day before a day
/// before a third is before the third, and of two different days one is
/// before the other.
pub proof fn law_days_are_ordered(a: Date, b: Date, c: Date)
    ensures
        !a.before(a),
        a.before(b) && b.before(c) ==> a.before(c),
        a != b ==> a.before(b) || b.before(a),
        !(a.before(b) && b.before(a)),
{
}

} // verus!
