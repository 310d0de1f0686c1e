//! Calendar days, counted as chrono counts them, and the calls into chrono.
use chrono::{Datelike, Days, Local, NaiveDate};
use vstd::prelude::*;
use crate::text::{first_word, first_word_of};

verus! {

/// The day number of the earliest date chrono represents (`NaiveDate::MIN`).
pub const MIN_DAY: i32 = -95746129;

/// The day number of the latest date chrono represents (`NaiveDate::MAX`).
pub const MAX_DAY: i32 = 95745399;

/// The format of the dates in the league schedule, such as `10/22/2024 00:00:00`.
pub open spec fn schedule_format() -> Seq<char> {
    "%m/%d/%Y"@
}

/// The formats that the library hands to chrono's formatter.
pub open spec fn is_date_format(f: Seq<char>) -> bool {
    ||| f == "%m/%d/%Y"@
    ||| f == "%a %m/%d"@
    ||| f == "%Y-%m-%d"@
    ||| f == "%Y-%m-%d  %A"@
}

/// What `NaiveDate::parse_from_str(s, fmt)` gives, as a day number (`None` for an error).
pub uninterp spec fn chrono_parse_date(s: Seq<char>, fmt: Seq<char>) -> Option<i32>;

/// What `NaiveDate::format(fmt)` writes for the date with day number `day`.
pub uninterp spec fn chrono_format_date(day: i32, fmt: Seq<char>) -> Seq<char>;

/// A day of the proleptic Gregorian calendar, as its number of days since
/// 31 December of the year 1 BCE (1 January of the year 1 is day 1), the count
/// of `Datelike::num_days_from_ce`. Consecutive days have consecutive numbers, so
/// comparing numbers compares dates.
#[derive(Clone, Copy, Debug, PartialEq, Eq, Structural)]
pub struct Date {
    pub day: i32,
}

impl Date {
    /// The day lies within the range that chrono represents.
    pub open spec fn valid(self) -> bool {
        MIN_DAY <= self.day <= MAX_DAY
    }

    /// The date with the given day number, where chrono can represent it.
    pub fn from_day_number(day: i32) -> (r: Option<Date>)
        ensures
            r matches Some(d) ==> d.day == day && d.valid(),
            r is Some <==> MIN_DAY <= day <= MAX_DAY,
    {
        if MIN_DAY <= day && day <= MAX_DAY {
            Some(Date { day })
        } else {
            None
        }
    }

    /// The local date today, by the system clock and time zone.
    pub fn today() -> (r: Date)
        ensures
            r.valid(),
    {
        Date { day: local_today() }
    }

    /// Parses `s` with the chrono format `fmt`.
    pub fn parse(s: &str, fmt: &str) -> (r: Option<Date>)
        ensures
            r matches Some(d) ==> d.valid(),
            (r matches Some(d) ==> chrono_parse_date(s@, fmt@) == Some(d.day)),
            r is None ==> chrono_parse_date(s@, fmt@) is None,
    {
        match parse_date(s, fmt) {
            Some(day) => Some(Date { day }),
            None => None,
        }
    }

    /// Writes the date in the chrono format `fmt`.
    pub fn format(&self, fmt: &str) -> (r: String)
        requires
            self.valid(),
            is_date_format(fmt@),
        ensures
            r@ == chrono_format_date(self.day, fmt@),
    {
        format_date(self.day, fmt)
    }

    /// The date `n` days later, unless it lies past the last date chrono represents.
    pub fn checked_add_days(&self, n: u64) -> (r: Option<Date>)
        requires
            self.valid(),
        ensures
            r == (if self.day + n <= MAX_DAY { Some(Date { day: (self.day + n) as i32 }) } else { None }),
    {
        match add_days(self.day, n) {
            Some(day) => Some(Date { day }),
            None => None,
        }
    }
}

/// The date at the start of a schedule entry such as `10/22/2024 00:00:00`: the text
/// before the first space, read as month/day/year.
pub open spec fn schedule_date(s: Seq<char>) -> Option<i32> {
    chrono_parse_date(first_word(s), schedule_format())
}

/// Reads the date of a schedule entry, such as `10/22/2024 00:00:00`.
pub fn parse_schedule_date(s: &str) -> (r: Option<Date>)
    ensures
        r matches Some(d) ==> d.valid(),
        (match r {
            Some(d) => schedule_date(s@) == Some(d.day),
            None => schedule_date(s@) is None,
        }),
{
    let date_part = first_word_of(s);
    Date::parse(date_part.as_str(), "%m/%d/%Y")
}

/// `NaiveDate::parse_from_str`, with the parsed date turned into its day number
/// (`Datelike::num_days_from_ce`). Any date chrono returns lies in its range; which
/// date a text gives is left to the name `chrono_parse_date`.
#[verifier::external_body]
fn parse_date(s: &str, fmt: &str) -> (r: Option<i32>)
    ensures
        r == chrono_parse_date(s@, fmt@),
        r matches Some(d) ==> MIN_DAY <= d <= MAX_DAY,
{
    match NaiveDate::parse_from_str(s, fmt) {
        Ok(d) => Some(d.num_days_from_ce()),
        Err(_) => None,
    }
}

/// `NaiveDate::format` on the date with day number `day`
/// (`NaiveDate::from_num_days_from_ce_opt`), written out with `to_string`. The text is
/// left to the name `chrono_format_date`; the formats allowed are valid chrono formats,
/// so the writing does not fail.
#[verifier::external_body]
fn format_date(day: i32, fmt: &str) -> (r: String)
    requires
        MIN_DAY <= day <= MAX_DAY,
        is_date_format(fmt@),
    ensures
        r@ == chrono_format_date(day, fmt@),
{
    NaiveDate::from_num_days_from_ce_opt(day).unwrap().format(fmt).to_string()
}

/// `NaiveDate::checked_add_days` on the date with day number `day`: the day `n` days
/// later, or `None` where that lies past `NaiveDate::MAX`.
#[verifier::external_body]
fn add_days(day: i32, n: u64) -> (r: Option<i32>)
    requires
        MIN_DAY <= day <= MAX_DAY,
    ensures
        r == (if day + n <= MAX_DAY { Some((day + n) as i32) } else { None::<i32> }),
{
    match NaiveDate::from_num_days_from_ce_opt(day).unwrap().checked_add_days(Days::new(n)) {
        Some(d) => Some(d.num_days_from_ce()),
        None => None,
    }
}

/// `Local::now().date_naive()`: today's date in the local time zone, as a day number.
/// Any date chrono gives lies in its range; which day it is depends on the clock.
#[verifier::external_body]
fn local_today() -> (r: i32)
    ensures
        MIN_DAY <= r <= MAX_DAY,
{
    Local::now().date_naive().num_days_from_ce()
}

} // verus!
