//! Calendar dates, modelled by their Julian day number.
//!
//! A date is identified with its Julian day number (day 0 of that count is
//! a Monday).  The spec functions below restate the proleptic-Gregorian
//! calendar rules; conversion between the calendar form (year, month, day)
//! and the day number is delegated to the `time` crate behind two trusted
//! wrappers, and everything built on top of them is verified.

use vstd::arithmetic::div_mod::{lemma_add_mod_noop, lemma_mod_multiples_vanish};
use vstd::prelude::*;

use crate::failure::Failure;

verus! {

/// Smallest year the date range supports.
pub const MIN_YEAR: i32 = -9999;

/// Largest year the date range supports.
pub const MAX_YEAR: i32 = 9999;

/// Julian day number of the first supported date (January 1 of `MIN_YEAR`).
pub const MIN_JULIAN: i32 = -1930999;

/// Julian day number of the last supported date (December 31 of `MAX_YEAR`).
pub const MAX_JULIAN: i32 = 5373484;

/// Leap years of the proleptic Gregorian calendar.
pub open spec fn is_leap_year(y: int) -> bool {
    y % 4 == 0 && (y % 100 != 0 || y % 400 == 0)
}

/// Length of month `m` (numbered 1 through 12) in year `y`.
pub open spec fn days_in_month(y: int, m: int) -> int {
    if m == 2 {
        if is_leap_year(y) {
            29
        } else {
            28
        }
    } else if m == 4 || m == 6 || m == 9 || m == 11 {
        30
    } else {
        31
    }
}

/// Days of year `y` that lie before month `m` (numbered 1 through 12).
pub open spec fn days_before_month(y: int, m: int) -> int {
    let common: int = if m == 1 {
        0
    } else if m == 2 {
        31
    } else if m == 3 {
        59
    } else if m == 4 {
        90
    } else if m == 5 {
        120
    } else if m == 6 {
        151
    } else if m == 7 {
        181
    } else if m == 8 {
        212
    } else if m == 9 {
        243
    } else if m == 10 {
        273
    } else if m == 11 {
        304
    } else {
        334
    };
    if m >= 3 && is_leap_year(y) {
        common + 1
    } else {
        common
    }
}

/// Whether (year, month, day) names a real calendar date in the supported range.
pub open spec fn valid_date(y: int, m: int, d: int) -> bool {
    &&& MIN_YEAR <= y <= MAX_YEAR
    &&& 1 <= m <= 12
    &&& 1 <= d <= days_in_month(y, m)
}

/// Day of year, numbered from 1.
pub open spec fn ordinal_of(y: int, m: int, d: int) -> int {
    days_before_month(y, m) + d
}

/// The Julian day number of a calendar date: the classic day count whose
/// day 0 is November 24 of year -4713 (so January 1 of year 2000 is day
/// 2451545).
pub open spec fn julian_of(y: int, m: int, d: int) -> int {
    let py = y - 1;
    ordinal_of(y, m, d) + 365 * py + py / 4 - py / 100 + py / 400 + 1721425
}

/// Weekday of a Julian day number, with Sunday as 0 through Saturday as 6.
/// Day 0 of the Julian count is a Monday, hence the shift by one.
pub open spec fn day_of_week(j: int) -> int {
    (j + 1) % 7
}

/// On the supported year range the Julian day number stays within
/// [`MIN_JULIAN`, `MAX_JULIAN`]; both ends are reached.
pub proof fn lemma_julian_in_range(y: int, m: int, d: int)
    requires
        valid_date(y, m, d),
    ensures
        MIN_JULIAN <= julian_of(y, m, d) <= MAX_JULIAN,
{
    let py = y - 1;
    assert(1 <= ordinal_of(y, m, d) <= 366);
    assert(-10000 <= py <= 9998);
    assert(py / 4 >= -2500 && py / 100 <= 100 && py / 400 >= -25) by {
        assert(4 * (py / 4) == py - py % 4);
        assert(100 * (py / 100) == py - py % 100);
        assert(400 * (py / 400) == py - py % 400);
    }
    assert(julian_of(y, m, d) >= MIN_JULIAN);
    if y == MAX_YEAR {
        assert(!is_leap_year(y));
        assert(ordinal_of(y, m, d) <= 365);
        assert(py / 4 <= 2499 && py / 100 >= 99 && py / 400 <= 24) by {
            assert(4 * (py / 4) == py - py % 4);
            assert(100 * (py / 100) == py - py % 100);
            assert(400 * (py / 400) == py - py % 400);
        }
        assert(julian_of(y, m, d) <= MAX_JULIAN);
    } else {
        assert(py <= 9997);
        assert(py / 4 <= 2499 && py / 100 >= -100 && py / 400 <= 24) by {
            assert(4 * (py / 4) == py - py % 4);
            assert(100 * (py / 100) == py - py % 100);
            assert(400 * (py / 400) == py - py % 400);
        }
        assert(julian_of(y, m, d) <= MAX_JULIAN);
    }
}

/// The calendar triple that the `time` crate decodes a Julian day number
/// into.  Stating the decoding in closed form would repeat the whole
/// calendar algorithm, so it is only named here; [`julian_to_calendar`]
/// ties the name to the encoding direction.
pub uninterp spec fn civil_of(julian: int) -> (int, int, int);

/// Relies on `time::Month::try_from`, `time::Date::from_calendar_date` and
/// `time::Date::to_julian_day`: the triple is accepted exactly when it is a
/// real proleptic-Gregorian date with year in -9999..=9999, and the
/// returned day count follows the Julian day number formula.
#[verifier::external_body]
fn calendar_to_julian(year: i32, month: u8, day: u8) -> (r: Option<i32>)
    ensures
        r is Some <==> valid_date(year as int, month as int, day as int),
        r matches Some(j) ==> j as int == julian_of(year as int, month as int, day as int),
{
    match time::Month::try_from(month) {
        Ok(m) => match time::Date::from_calendar_date(year, m, day) {
            Ok(d) => Some(d.to_julian_day()),
            Err(_) => None,
        },
        Err(_) => None,
    }
}

/// Relies on `time::Date::from_julian_day` and its `year`, `month` and
/// `day` accessors: a day number is accepted exactly on the supported
/// range, and the returned triple is the calendar form of that day (so
/// encoding it again gives the same day number back).
#[verifier::external_body]
fn julian_to_calendar(julian: i32) -> (r: Option<(i32, u8, u8)>)
    ensures
        r is Some <==> MIN_JULIAN <= julian <= MAX_JULIAN,
        r matches Some(t) ==> {
            &&& civil_of(julian as int) == (t.0 as int, t.1 as int, t.2 as int)
            &&& valid_date(t.0 as int, t.1 as int, t.2 as int)
            &&& julian_of(t.0 as int, t.1 as int, t.2 as int) == julian as int
        },
{
    match time::Date::from_julian_day(julian) {
        Ok(d) => Some((d.year(), d.month() as u8, d.day())),
        Err(_) => None,
    }
}

/// One of the twelve months.
#[derive(Debug, Clone, Copy, PartialEq, Eq, Structural)]
pub enum Month {
    January,
    February,
    March,
    April,
    May,
    June,
    July,
    August,
    September,
    October,
    November,
    December,
}

/// Month number, January as 1 through December as 12.
pub open spec fn month_number(m: Month) -> int {
    match m {
        Month::January => 1,
        Month::February => 2,
        Month::March => 3,
        Month::April => 4,
        Month::May => 5,
        Month::June => 6,
        Month::July => 7,
        Month::August => 8,
        Month::September => 9,
        Month::October => 10,
        Month::November => 11,
        Month::December => 12,
    }
}

impl Month {
    /// Month number, January as 1 through December as 12.
    pub fn number(&self) -> (n: u8)
        ensures
            n as int == month_number(*self),
    {
        match self {
            Month::January => 1,
            Month::February => 2,
            Month::March => 3,
            Month::April => 4,
            Month::May => 5,
            Month::June => 6,
            Month::July => 7,
            Month::August => 8,
            Month::September => 9,
            Month::October => 10,
            Month::November => 11,
            Month::December => 12,
        }
    }

    /// The month that follows `self`, December wrapping around to January.
    pub fn next(&self) -> (n: Month)
        ensures
            month_number(*self) < 12 ==> month_number(n) == month_number(*self) + 1,
            month_number(*self) == 12 ==> n == Month::January,
    {
        match self {
            Month::January => Month::February,
            Month::February => Month::March,
            Month::March => Month::April,
            Month::April => Month::May,
            Month::May => Month::June,
            Month::June => Month::July,
            Month::July => Month::August,
            Month::August => Month::September,
            Month::September => Month::October,
            Month::October => Month::November,
            Month::November => Month::December,
            Month::December => Month::January,
        }
    }

    /// The month carrying number `n` (1 through 12).
    pub fn from_number(n: u8) -> (r: Option<Month>)
        ensures
            r is Some <==> 1 <= n <= 12,
            r matches Some(m) ==> month_number(m) == n as int,
    {
        match n {
            1 => Some(Month::January),
            2 => Some(Month::February),
            3 => Some(Month::March),
            4 => Some(Month::April),
            5 => Some(Month::May),
            6 => Some(Month::June),
            7 => Some(Month::July),
            8 => Some(Month::August),
            9 => Some(Month::September),
            10 => Some(Month::October),
            11 => Some(Month::November),
            12 => Some(Month::December),
            _ => None,
        }
    }
}

/// Three-letter label of a month.
pub open spec fn spec_short_month(m: Month) -> Seq<char> {
    match m {
        Month::January => "Jan"@,
        Month::February => "Feb"@,
        Month::March => "Mar"@,
        Month::April => "Apr"@,
        Month::May => "May"@,
        Month::June => "Jun"@,
        Month::July => "Jul"@,
        Month::August => "Aug"@,
        Month::September => "Sep"@,
        Month::October => "Oct"@,
        Month::November => "Nov"@,
        Month::December => "Dec"@,
    }
}

/// Three-letter label of a month, for display.
pub fn short_month(month: Month) -> (r: &'static str)
    ensures
        r@ == spec_short_month(month),
{
    match month {
        Month::January => "Jan",
        Month::February => "Feb",
        Month::March => "Mar",
        Month::April => "Apr",
        Month::May => "May",
        Month::June => "Jun",
        Month::July => "Jul",
        Month::August => "Aug",
        Month::September => "Sep",
        Month::October => "Oct",
        Month::November => "Nov",
        Month::December => "Dec",
    }
}

/// One of the seven weekdays.
#[derive(Debug, Clone, Copy, PartialEq, Eq, Structural)]
pub enum Weekday {
    Sunday,
    Monday,
    Tuesday,
    Wednesday,
    Thursday,
    Friday,
    Saturday,
}

/// Column of a weekday on the calendar grid, Sunday as 0 through Saturday
/// as 6.
pub open spec fn weekday_index(w: Weekday) -> int {
    match w {
        Weekday::Sunday => 0,
        Weekday::Monday => 1,
        Weekday::Tuesday => 2,
        Weekday::Wednesday => 3,
        Weekday::Thursday => 4,
        Weekday::Friday => 5,
        Weekday::Saturday => 6,
    }
}

/// Column of a weekday on the calendar grid, Sunday first.
pub fn weekday_to_column(weekday: Weekday) -> (c: u8)
    ensures
        c as int == weekday_index(weekday),
{
    match weekday {
        Weekday::Sunday => 0,
        Weekday::Monday => 1,
        Weekday::Tuesday => 2,
        Weekday::Wednesday => 3,
        Weekday::Thursday => 4,
        Weekday::Friday => 5,
        Weekday::Saturday => 6,
    }
}

/// Three-letter label of a weekday.
pub open spec fn spec_short_weekday(w: Weekday) -> Seq<char> {
    match w {
        Weekday::Sunday => "Sun"@,
        Weekday::Monday => "Mon"@,
        Weekday::Tuesday => "Tue"@,
        Weekday::Wednesday => "Wed"@,
        Weekday::Thursday => "Thu"@,
        Weekday::Friday => "Fri"@,
        Weekday::Saturday => "Sat"@,
    }
}

/// Three-letter label of a weekday, for display.
pub fn short_weekday(weekday: Weekday) -> (r: &'static str)
    ensures
        r@ == spec_short_weekday(weekday),
{
    match weekday {
        Weekday::Sunday => "Sun",
        Weekday::Monday => "Mon",
        Weekday::Tuesday => "Tue",
        Weekday::Wednesday => "Wed",
        Weekday::Thursday => "Thu",
        Weekday::Friday => "Fri",
        Weekday::Saturday => "Sat",
    }
}

impl Weekday {
    /// The weekday in grid column `i` (Sunday first).
    pub fn from_column(i: u8) -> (w: Weekday)
        requires
            i < 7,
        ensures
            weekday_index(w) == i as int,
    {
        match i {
            0 => Weekday::Sunday,
            1 => Weekday::Monday,
            2 => Weekday::Tuesday,
            3 => Weekday::Wednesday,
            4 => Weekday::Thursday,
            5 => Weekday::Friday,
            _ => Weekday::Saturday,
        }
    }
}

/// A calendar date: the calendar triple together with its Julian day
/// number.  [`Date::wf`] ties the two representations together.
#[derive(Debug, Clone, Copy, PartialEq, Eq, Structural)]
pub struct Date {
    /// Year, in `MIN_YEAR..=MAX_YEAR`.
    pub year: i32,
    /// Month number, 1 through 12.
    pub month: u8,
    /// Day of month, 1 through the month's length.
    pub day: u8,
    /// Julian day number of this date.
    pub julian: i32,
}

impl Date {
    /// The triple is a real date and `julian` is its day number.
    pub open spec fn wf(self) -> bool {
        &&& valid_date(self.year as int, self.month as int, self.day as int)
        &&& self.julian as int == julian_of(self.year as int, self.month as int, self.day as int)
    }

    /// Build a date from its calendar form; fails exactly on triples that
    /// name no real date in the supported range.
    pub fn new(year: i32, month: u8, day: u8) -> (r: Result<Date, Failure>)
        ensures
            r is Ok <==> valid_date(year as int, month as int, day as int),
            r matches Ok(d) ==> {
                &&& d.wf()
                &&& d.year == year
                &&& d.month == month
                &&& d.day == day
            },
    {
        match calendar_to_julian(year, month, day) {
            Some(julian) => Ok(Date { year, month, day, julian }),
            None => Err(Failure::Date),
        }
    }

    /// Build a date from its Julian day number; fails exactly outside the
    /// supported range.
    pub fn from_julian(julian: i32) -> (r: Result<Date, Failure>)
        ensures
            r is Ok <==> MIN_JULIAN <= julian <= MAX_JULIAN,
            r matches Ok(d) ==> {
                &&& d.wf()
                &&& d.julian == julian
                &&& (d.year as int, d.month as int, d.day as int) == civil_of(julian as int)
            },
    {
        match julian_to_calendar(julian) {
            Some((year, month, day)) => Ok(Date { year, month, day, julian }),
            None => Err(Failure::Date),
        }
    }

    /// The date `n` days later (or earlier, for negative `n`); fails
    /// exactly when that day leaves the supported range.
    pub fn add_days(&self, n: i32) -> (r: Result<Date, Failure>)
        requires
            self.wf(),
        ensures
            r is Ok <==> MIN_JULIAN <= self.julian as int + n as int <= MAX_JULIAN,
            r matches Ok(d) ==> {
                &&& d.wf()
                &&& d.julian as int == self.julian as int + n as int
                &&& (d.year as int, d.month as int, d.day as int) == civil_of(
                    self.julian as int + n as int,
                )
            },
    {
        let target: i64 = self.julian as i64 + n as i64;
        if (MIN_JULIAN as i64) <= target && target <= (MAX_JULIAN as i64) {
            Date::from_julian(target as i32)
        } else {
            Err(Failure::Date)
        }
    }

    /// Weekday index of this date, Sunday as 0 through Saturday as 6.
    pub fn weekday_column(&self) -> (c: u8)
        requires
            self.wf(),
        ensures
            c as int == day_of_week(self.julian as int),
    {
        proof {
            lemma_julian_in_range(self.year as int, self.month as int, self.day as int);
        }
        let shifted: u32 = (self.julian - MIN_JULIAN) as u32;
        let c: u32 = (shifted % 7 + 1) % 7;
        proof {
            let j = self.julian as int;
            lemma_mod_multiples_vanish(-275857, j, 7);
            assert(shifted as int == j + (-MIN_JULIAN));
            assert(shifted as int % 7 == j % 7);
            lemma_add_mod_noop(j, 1, 7);
            assert((j % 7 + 1int % 7) % 7 == (j + 1) % 7);
            assert(1int % 7 == 1);
        }
        c as u8
    }

    /// Weekday of this date.
    pub fn weekday(&self) -> (w: Weekday)
        requires
            self.wf(),
        ensures
            weekday_index(w) == day_of_week(self.julian as int),
    {
        Weekday::from_column(self.weekday_column())
    }
}

} // verus!
