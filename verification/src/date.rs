//! Calendar dates as day numbers of the proleptic Gregorian calendar.
//!
//! A [`Date`] holds the number of its day, counted as `chrono` counts
//! them: January 1 of year 1 is day 1.  Order, distance and succession of
//! dates are then plain integer arithmetic; only the conversion between a
//! day number and year, month and day is left to `chrono`.

use chrono::Datelike;
use chrono::NaiveDate;
use vstd::prelude::*;

verus! {

/// Day number of the earliest date `chrono` represents, January 1 of year -262143.
pub const MIN_DAYS: i32 = -95_746_129;

/// Day number of the latest date `chrono` represents, December 31 of year 262142.
pub const MAX_DAYS: i32 = 95_745_399;

/// The day number of the calendar date `year`-`month`-`day` in the
/// proleptic Gregorian calendar, or `None` where no such date exists or
/// `chrono` cannot represent it.
pub uninterp spec fn civil_to_days(year: int, month: int, day: int) -> Option<int>;

/// The year in which the day numbered `days` falls.
pub uninterp spec fn civil_year(days: int) -> int;

/// The month, from 1 to 12, in which the day numbered `days` falls.
pub uninterp spec fn civil_month(days: int) -> int;

/// The day of the month, from 1 to 31, of the day numbered `days`.
pub uninterp spec fn civil_day(days: int) -> int;

/// Whether `days` numbers a day that a [`Date`] can hold.
pub open spec fn in_range(days: int) -> bool {
    MIN_DAYS <= days <= MAX_DAYS
}

/// `NaiveDate::from_ymd_opt` followed by `Datelike::num_days_from_ce`.
///
/// Trusted: the result is the day number that `chrono` gives the calendar
/// date, and `None` exactly where `chrono` rejects the date.
#[verifier::external_body]
fn day_number_of(year: i32, month: u32, day: u32) -> (r: Option<i32>)
    ensures
        r matches Some(n) ==> civil_to_days(year as int, month as int, day as int) == Some(
            n as int,
        ),
        r is None ==> civil_to_days(year as int, month as int, day as int) is None,
{
    match NaiveDate::from_ymd_opt(year, month, day) {
        Some(date) => Some(date.num_days_from_ce()),
        None => None,
    }
}

/// `NaiveDate::from_num_days_from_ce_opt` followed by `Datelike::year`.
///
/// Trusted: `chrono` represents every day number in range, and the
/// result is the year it gives that day.
#[verifier::external_body]
fn year_of(days: i32) -> (r: i32)
    requires
        in_range(days as int),
    ensures
        r == civil_year(days as int),
{
    NaiveDate::from_num_days_from_ce_opt(days).unwrap().year()
}

/// `NaiveDate::from_num_days_from_ce_opt` followed by `Datelike::month`.
///
/// Trusted: `chrono` represents every day number in range, and the
/// result is the month it gives that day, which its documentation bounds
/// by 1 and 12.
#[verifier::external_body]
fn month_of(days: i32) -> (r: u32)
    requires
        in_range(days as int),
    ensures
        r == civil_month(days as int),
        1 <= r <= 12,
{
    NaiveDate::from_num_days_from_ce_opt(days).unwrap().month()
}

/// `NaiveDate::from_num_days_from_ce_opt` followed by `Datelike::day`.
///
/// Trusted: `chrono` represents every day number in range, and the
/// result is the day of the month it gives that day, which its
/// documentation bounds by 1 and 31.
#[verifier::external_body]
fn day_of(days: i32) -> (r: u32)
    requires
        in_range(days as int),
    ensures
        r == civil_day(days as int),
        1 <= r <= 31,
{
    NaiveDate::from_num_days_from_ce_opt(days).unwrap().day()
}

/// A calendar date.
#[derive(Clone, Copy, Debug, PartialEq, Eq, Structural, PartialOrd, Ord, Hash)]
pub struct Date {
    days: i32,
}

impl View for Date {
    type V = int;

    /// The date's day number.
    closed spec fn view(&self) -> int {
        self.days as int
    }
}

impl Date {
    #[verifier::type_invariant]
    spec fn representable(self) -> bool {
        in_range(self.days as int)
    }

    /// The date with the given day number, if there is one.
    pub fn from_days(days: i32) -> (r: Option<Date>)
        ensures
            r is Some <==> in_range(days as int),
            r matches Some(date) ==> date@ == days,
    {
        if MIN_DAYS <= days && days <= MAX_DAYS {
            Some(Date { days })
        } else {
            None
        }
    }

    /// The calendar date `year`-`month`-`day`, if it exists and its
    /// day number is in range.
    pub fn from_ymd(year: i32, month: u32, day: u32) -> (r: Option<Date>)
        ensures
            r is Some <==> (civil_to_days(year as int, month as int, day as int) matches Some(n)
                && in_range(n)),
            r matches Some(date) ==> civil_to_days(year as int, month as int, day as int) == Some(
                date@,
            ),
    {
        match day_number_of(year, month, day) {
            Some(days) => Date::from_days(days),
            None => None,
        }
    }

    /// The date's day number.
    pub fn days(&self) -> (r: i32)
        ensures
            r == self@,
            in_range(self@),
    {
        proof {
            use_type_invariant(self);
        }
        self.days
    }

    /// The year of the date.
    pub fn year(&self) -> (r: i32)
        ensures
            r == civil_year(self@),
    {
        proof {
            use_type_invariant(self);
        }
        year_of(self.days)
    }

    /// The month of the date, from 1 to 12.
    pub fn month(&self) -> (r: u32)
        ensures
            r == civil_month(self@),
            1 <= r <= 12,
    {
        proof {
            use_type_invariant(self);
        }
        month_of(self.days)
    }

    /// The day of the month of the date, from 1 to 31.
    pub fn day(&self) -> (r: u32)
        ensures
            r == civil_day(self@),
            1 <= r <= 31,
    {
        proof {
            use_type_invariant(self);
        }
        day_of(self.days)
    }

    /// The day after this one, if there is one.
    pub fn succ(&self) -> (r: Option<Date>)
        ensures
            r is Some <==> in_range(self@ + 1),
            r matches Some(next) ==> next@ == self@ + 1,
    {
        proof {
            use_type_invariant(self);
        }
        if self.days < MAX_DAYS {
            Some(Date { days: self.days + 1 })
        } else {
            None
        }
    }

    /// Whether the date lies strictly before `other`.
    pub fn is_before(&self, other: &Date) -> (r: bool)
        ensures
            r == (self@ < other@),
    {
        self.days < other.days
    }
}

/// Two dates with the same day number are the same date.
pub proof fn lemma_date_by_number(a: Date, b: Date)
    ensures
        a@ == b@ ==> a == b,
{
}

} // verus!
