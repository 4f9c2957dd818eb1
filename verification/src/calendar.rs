//! The calendar window: a 6-by-7 grid of dates derived from an anchor.
//!
//! An anchor names a year, a month and a day offset.  The grid starts on
//! the Sunday on or before the anchor date and runs for 42 consecutive
//! days; the highlighted window is the half-open date interval from the
//! anchor date to the same offset in the following month.

use vstd::arithmetic::div_mod::lemma_mod_multiples_vanish;
use vstd::prelude::*;

use crate::date::{
    civil_of, day_of_week, julian_of, lemma_julian_in_range, month_number, valid_date, Date, Month,
    MAX_JULIAN, MAX_YEAR, MIN_JULIAN,
};
use crate::failure::Failure;

verus! {

/// The anchor of a calendar window: the month being viewed and the day
/// offset on which the highlighted pay period begins and ends.
#[derive(Debug, Clone, Copy, PartialEq, Eq, Structural)]
pub struct AnchorSpec {
    /// Year of the viewed month.
    pub year: i32,
    /// The viewed month.
    pub month: Month,
    /// Day of month on which the highlighted window begins, nominally 1
    /// through 31; offsets that name no real date leave nothing
    /// highlighted.
    pub offset: u8,
}

/// Whether the anchor triple names a real date.
pub open spec fn anchor_valid(a: AnchorSpec) -> bool {
    valid_date(a.year as int, month_number(a.month), a.offset as int)
}

/// Julian day number of the anchor date.
pub open spec fn anchor_julian(a: AnchorSpec) -> int {
    julian_of(a.year as int, month_number(a.month), a.offset as int)
}

/// Year of the end of the highlighted window: the anchor's year, plus one
/// exactly when the anchor month is December.
pub open spec fn end_year(a: AnchorSpec) -> int {
    if a.month == Month::December {
        a.year as int + 1
    } else {
        a.year as int
    }
}

/// Month number of the end of the highlighted window: the month after the
/// anchor's, December wrapping to January.
pub open spec fn end_month(a: AnchorSpec) -> int {
    if a.month == Month::December {
        1
    } else {
        month_number(a.month) + 1
    }
}

/// Whether the end of the highlighted window names a real date.
pub open spec fn end_valid(a: AnchorSpec) -> bool {
    valid_date(end_year(a), end_month(a), a.offset as int)
}

/// Julian day number of the end of the highlighted window.
pub open spec fn end_julian(a: AnchorSpec) -> int {
    julian_of(end_year(a), end_month(a), a.offset as int)
}

/// Julian day number of the grid's first cell: the Sunday on or before
/// the anchor date.
pub open spec fn first_sunday_julian(a: AnchorSpec) -> int {
    anchor_julian(a) - day_of_week(anchor_julian(a))
}

/// Whether the date with Julian day number `j` lies in the highlighted
/// window: both window ends must construct, and `j` must fall in the
/// half-open interval between them.
pub open spec fn spec_is_highlighted(a: AnchorSpec, j: int) -> bool {
    &&& anchor_valid(a)
    &&& end_valid(a)
    &&& anchor_julian(a) <= j < end_julian(a)
}

/// Whether grid position `p` of anchor `a` carries a date: the anchor must
/// be a real date, and the cell's day number must stay in the supported
/// range.
pub open spec fn cell_ok(a: AnchorSpec, p: int) -> bool {
    &&& anchor_valid(a)
    &&& MIN_JULIAN <= first_sunday_julian(a)
    &&& first_sunday_julian(a) + p <= MAX_JULIAN
}

/// Number of cells on the calendar grid.
pub const GRID_CELLS: usize = 42;

/// First day of the highlighted window, the anchor date itself; fails
/// exactly when the anchor names no real date.
pub fn highlight_begin(a: &AnchorSpec) -> (r: Result<Date, Failure>)
    ensures
        r is Ok <==> anchor_valid(*a),
        r matches Ok(d) ==> {
            &&& d.wf()
            &&& d.julian as int == anchor_julian(*a)
            &&& d.year == a.year
            &&& d.month as int == month_number(a.month)
            &&& d.day == a.offset
        },
{
    Date::new(a.year, a.month.number(), a.offset)
}

/// One-past-the-last day of the highlighted window: the anchor offset in
/// the month after the anchor's, with the year incremented exactly when
/// the anchor month is December.  Fails exactly when that triple names no
/// real date.
pub fn highlight_end(a: &AnchorSpec) -> (r: Result<Date, Failure>)
    ensures
        r is Ok <==> end_valid(*a),
        r matches Ok(d) ==> {
            &&& d.wf()
            &&& d.julian as int == end_julian(*a)
            &&& d.year as int == end_year(*a)
            &&& d.month as int == end_month(*a)
            &&& d.day == a.offset
        },
{
    if matches!(a.month, Month::December) {
        if a.year >= MAX_YEAR {
            Err(Failure::Date)
        } else {
            Date::new(a.year + 1, 1, a.offset)
        }
    } else {
        Date::new(a.year, a.month.next().number(), a.offset)
    }
}

/// The date of the grid's top-left cell: the anchor date if it falls on a
/// Sunday, otherwise the closest earlier Sunday.  Fails exactly when the
/// anchor names no real date or that Sunday leaves the supported range.
pub fn first_sunday(a: &AnchorSpec) -> (r: Result<Date, Failure>)
    ensures
        r is Ok <==> anchor_valid(*a) && MIN_JULIAN <= first_sunday_julian(*a),
        r matches Ok(d) ==> {
            &&& d.wf()
            &&& d.julian as int == first_sunday_julian(*a)
            &&& day_of_week(d.julian as int) == 0
        },
{
    match highlight_begin(a) {
        Ok(begin) => {
            proof {
                lemma_julian_in_range(
                    begin.year as int,
                    begin.month as int,
                    begin.day as int,
                );
            }
            let dow = begin.weekday_column();
            let target = begin.julian - dow as i32;
            proof {
                let j = begin.julian as int;
                let t = j - (j + 1) % 7;
                assert(7 * ((j + 1) / 7) == (j + 1) - (j + 1) % 7);
                lemma_mod_multiples_vanish((j + 1) / 7, 0, 7);
                assert((t + 1) % 7 == 0int % 7);
                assert(0int % 7 == 0);
            }
            Date::from_julian(target)
        },
        Err(failure) => Err(failure),
    }
}

/// Whether `date` lies in the highlighted window of anchor `a`.  Any
/// construction failure of either window end yields `false`, so that a
/// half-typed anchor simply highlights nothing.
pub fn is_highlighted(a: &AnchorSpec, date: &Date) -> (r: bool)
    requires
        date.wf(),
    ensures
        r == spec_is_highlighted(*a, date.julian as int),
{
    let begin_ok = match highlight_begin(a) {
        Ok(begin) => begin.julian <= date.julian,
        Err(_) => false,
    };
    let end_ok = match highlight_end(a) {
        Ok(end) => date.julian < end.julian,
        Err(_) => false,
    };
    begin_ok && end_ok
}

/// The date shown in grid cell `position`: the first Sunday moved forward
/// by `position` days.  Fails exactly when the grid has no date there.
pub fn cell_date(a: &AnchorSpec, position: usize) -> (r: Result<Date, Failure>)
    requires
        position < GRID_CELLS,
    ensures
        r is Ok <==> cell_ok(*a, position as int),
        r matches Ok(d) ==> {
            &&& d.wf()
            &&& d.julian as int == first_sunday_julian(*a) + position
            &&& (d.year as int, d.month as int, d.day as int) == civil_of(
                first_sunday_julian(*a) + position,
            )
        },
{
    match first_sunday(a) {
        Ok(fs) => fs.add_days(position as i32),
        Err(failure) => Err(failure),
    }
}

/// Whether the cell at `position` should carry a month label: it does on
/// the first day of a month, and always in the top-left corner, so the
/// grid is never ambiguous about where it starts.  A cell with no date
/// carries no label.
pub fn show_month_label(a: &AnchorSpec, position: usize) -> (r: bool)
    requires
        position < GRID_CELLS,
    ensures
        r == (cell_ok(*a, position as int) && (position == 0 || civil_of(
            first_sunday_julian(*a) + position,
        ).2 == 1)),
{
    match cell_date(a, position) {
        Ok(d) => d.day == 1 || position == 0,
        Err(_) => false,
    }
}

} // verus!
