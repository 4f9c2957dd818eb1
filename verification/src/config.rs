//! Pay configurations: a rate type (flat per unit, or hourly over a time
//! window) and a pay value in a minor currency unit.

use vstd::prelude::*;
use vstd::string::StringExecFns;

use crate::failure::Failure;
use crate::util::{digit_char, spec_comma_separated};

verus! {

/// A time of day, hours and minutes.
#[derive(Debug, Clone, Copy, PartialEq, Eq, Structural)]
pub struct HourMinute {
    /// Hour, 0 through 23 when well-formed.
    pub hour: u8,
    /// Minute, 0 through 59 when well-formed.
    pub minute: u8,
}

impl HourMinute {
    /// Hour below 24, minute below 60.
    pub open spec fn wf(self) -> bool {
        self.hour < 24 && self.minute < 60
    }

    /// The time as minutes since midnight.
    pub open spec fn spec_minutes(self) -> int {
        60 * self.hour as int + self.minute as int
    }

    /// The time as minutes since midnight.
    pub fn minutes(&self) -> (m: u16)
        ensures
            m as int == self.spec_minutes(),
    {
        60 * self.hour as u16 + self.minute as u16
    }

    /// Build a time of day; fails exactly when the hour or minute is out
    /// of range.
    pub fn from_hm(hour: u8, minute: u8) -> (r: Result<Self, Failure>)
        ensures
            r is Ok <==> hour < 24 && minute < 60,
            r matches Ok(hm) ==> hm == (HourMinute { hour, minute }) && hm.wf(),
            r matches Err(f) ==> f == Failure::Duration,
    {
        if hour < 24 && minute < 60 {
            Ok(HourMinute { hour, minute })
        } else {
            Err(Failure::Duration)
        }
    }
}

/// The daily working window of an hourly configuration.  A window whose
/// end does not come after its begin is read as crossing midnight.
#[derive(Debug, Clone, Copy, PartialEq, Eq, Structural)]
pub struct TimeWindow {
    /// Start of the window.
    pub begin: HourMinute,
    /// End of the window.
    pub end: HourMinute,
}

/// Length of a window in minutes: the plain difference when the end comes
/// after the begin, and the difference plus a full day otherwise (the
/// window crosses midnight).
pub open spec fn spec_duration_minutes(w: TimeWindow) -> int {
    if w.begin.spec_minutes() < w.end.spec_minutes() {
        w.end.spec_minutes() - w.begin.spec_minutes()
    } else {
        w.end.spec_minutes() - w.begin.spec_minutes() + 1440
    }
}

impl TimeWindow {
    /// Both ends are real times of day.
    pub open spec fn wf(self) -> bool {
        self.begin.wf() && self.end.wf()
    }

    /// Build a window from four clock fields; fails exactly when one of
    /// them is out of range.
    pub fn from_hm(
        begin_hour: u8,
        begin_minute: u8,
        end_hour: u8,
        end_minute: u8,
    ) -> (r: Result<TimeWindow, Failure>)
        ensures
            r is Ok <==> begin_hour < 24 && begin_minute < 60 && end_hour < 24 && end_minute
                < 60,
            r matches Ok(w) ==> w == (TimeWindow {
                begin: HourMinute { hour: begin_hour, minute: begin_minute },
                end: HourMinute { hour: end_hour, minute: end_minute },
            }) && w.wf(),
            r matches Err(f) ==> f == Failure::Duration,
    {
        let begin = HourMinute::from_hm(begin_hour, begin_minute)?;
        let end = HourMinute::from_hm(end_hour, end_minute)?;
        Ok(TimeWindow { begin, end })
    }

    /// Length of the window in minutes, counting a midnight rollover.
    pub fn duration_minutes(&self) -> (m: u16)
        requires
            self.wf(),
        ensures
            m as int == spec_duration_minutes(*self),
            m <= 1440,
    {
        let b = self.begin.minutes();
        let e = self.end.minutes();
        if b < e {
            e - b
        } else {
            e + 1440 - b
        }
    }
}

/// The two rate types: a flat amount per assigned day, or an hourly rate
/// over a daily time window.
#[derive(Debug, Clone, Copy, PartialEq, Eq, Structural)]
pub enum Type {
    /// Flat amount for each assigned day.
    PerTime,
    /// Hourly amount over the carried window, for each assigned day.
    PerHour(TimeWindow),
}

impl Type {
    /// Any carried window is well-formed.
    pub open spec fn wf(self) -> bool {
        match self {
            Type::PerTime => true,
            Type::PerHour(w) => w.wf(),
        }
    }
}

/// Two digits of a minute count, zero-padded.
pub open spec fn spec_pad2_zero(n: int) -> Seq<char> {
    seq![digit_char(n / 10), digit_char(n % 10)]
}

/// Up to two digits of an hour count, right-aligned with a space.
pub open spec fn spec_pad2_space(n: int) -> Seq<char> {
    if n < 10 {
        seq![' ', digit_char(n)]
    } else {
        seq![digit_char(n / 10), digit_char(n % 10)]
    }
}

/// An hour:minute label of a duration in minutes.
pub open spec fn spec_hm_label(total: int) -> Seq<char> {
    spec_pad2_space(total / 60) + seq![':'] + spec_pad2_zero(total % 60)
}

impl Type {
    /// Display form of the duration: an hour:minute label for an hourly
    /// rate, a dash for a flat rate.
    pub fn duration_to_string(&self) -> (r: String)
        requires
            self.wf(),
        ensures
            *self is PerTime ==> r@ == "-"@,
            self matches Type::PerHour(w) ==> r@ == spec_hm_label(spec_duration_minutes(*w)),
    {
        match self {
            Type::PerTime => String::from_str("-"),
            Type::PerHour(w) => {
                let total = w.duration_minutes();
                let hours = total / 60;
                let mins = total % 60;
                let mut s = if hours < 10 {
                    let mut s = String::from_str(" ");
                    s.append(crate::util::digit_str(hours as u32));
                    proof {
                        reveal_strlit(" ");
                        assert(s@ =~= spec_pad2_space(hours as int));
                    }
                    s
                } else {
                    let mut s = String::from_str(crate::util::digit_str((hours / 10) as u32));
                    s.append(crate::util::digit_str((hours % 10) as u32));
                    proof {
                        assert(s@ =~= spec_pad2_space(hours as int));
                    }
                    s
                };
                s.append(":");
                s.append(crate::util::digit_str((mins / 10) as u32));
                s.append(crate::util::digit_str((mins % 10) as u32));
                proof {
                    reveal_strlit(":");
                    assert(s@ =~= spec_hm_label(total as int));
                }
                s
            },
        }
    }
}

/// The tag of a rate type, ignoring any hourly payload.
pub open spec fn spec_pick_of(t: Type) -> TypeForPickList {
    match t {
        Type::PerTime => TypeForPickList::PerTime,
        Type::PerHour(_) => TypeForPickList::PerHour,
    }
}

/// The rate type reduced to its tag, as offered in the rate-type picker.
#[derive(Debug, Clone, Copy, PartialEq, Eq, Structural)]
pub enum TypeForPickList {
    /// Flat amount for each assigned day.
    PerTime,
    /// Hourly amount over a time window.
    PerHour,
}

impl vstd::std_specs::convert::FromSpecImpl<Type> for TypeForPickList {
    open spec fn obeys_from_spec() -> bool {
        true
    }

    open spec fn from_spec(value: Type) -> Self {
        spec_pick_of(value)
    }
}

impl From<Type> for TypeForPickList {
    fn from(value: Type) -> (r: Self) {
        match value {
            Type::PerTime => TypeForPickList::PerTime,
            Type::PerHour(_) => TypeForPickList::PerHour,
        }
    }
}

/// Currency-per-unit label of a rate-type tag.
pub open spec fn spec_pick_label(t: TypeForPickList) -> Seq<char> {
    match t {
        TypeForPickList::PerTime => "\u{a5}/#"@,
        TypeForPickList::PerHour => "\u{a5}/h"@,
    }
}

impl TypeForPickList {
    /// Currency-per-unit label, for display.
    pub fn label(&self) -> (r: &'static str)
        ensures
            r@ == spec_pick_label(*self),
    {
        match self {
            TypeForPickList::PerTime => "\u{a5}/#",
            TypeForPickList::PerHour => "\u{a5}/h",
        }
    }
}

/// A named pay rule: rate type and pay value in a minor currency unit.
#[derive(Debug, Clone, Copy, PartialEq, Eq, Structural)]
pub struct Config {
    /// Flat or hourly rate.
    pub rate_type: Type,
    /// Pay in a minor currency unit (no fractional part).
    pub pay: u32,
}

/// Pay owed by one configuration assigned to `count` days: the flat pay
/// times the count, or for hourly rates the pay scaled by the window
/// length in minutes and truncated down to whole hours' worth.
pub open spec fn spec_value(c: Config, count: int) -> int {
    match c.rate_type {
        Type::PerTime => c.pay as int * count,
        Type::PerHour(w) => (c.pay as int * count * spec_duration_minutes(w)) / 60,
    }
}

impl Config {
    /// The rate type is well-formed.
    pub open spec fn wf(self) -> bool {
        self.rate_type.wf()
    }

    /// Display form of the pay: digit groups followed by the rate label.
    pub fn pay_to_string(&self) -> (r: String)
        ensures
            r@ == spec_comma_separated(self.pay as int) + seq![' '] + spec_pick_label(
                spec_pick_of(self.rate_type),
            ),
    {
        let mut s = crate::util::comma_separated(self.pay);
        s.append(" ");
        s.append(TypeForPickList::from(self.rate_type).label());
        proof {
            reveal_strlit(" ");
            assert(s@ =~= spec_comma_separated(self.pay as int) + seq![' '] + spec_pick_label(
                spec_pick_of(self.rate_type),
            ));
        }
        s
    }

    /// Total pay owed by this configuration when it is assigned to
    /// `count` calendar cells.
    pub fn sum(&self, count: usize) -> (r: u64)
        requires
            self.wf(),
            count <= 42,
        ensures
            r as int == spec_value(*self, count as int),
    {
        match self.rate_type {
            Type::PerTime => {
                proof {
                    assert(self.pay as int * count as int <= 0xffff_ffff * 42) by (nonlinear_arith)
                        requires
                            self.pay <= 0xffff_ffffu32,
                            count <= 42,
                    ;
                    assert(self.pay as int * count as int >= 0) by (nonlinear_arith)
                        requires
                            self.pay >= 0,
                            count >= 0,
                    ;
                }
                self.pay as u64 * count as u64
            },
            Type::PerHour(w) => {
                let m = w.duration_minutes();
                proof {
                    assert(0 <= self.pay as int * count as int <= 0xffff_ffff * 42)
                        by (nonlinear_arith)
                        requires
                            self.pay <= 0xffff_ffffu32,
                            count <= 42,
                    ;
                    assert(0 <= (self.pay as int * count as int) * m as int <= 0xffff_ffff * 42
                        * 1440) by (nonlinear_arith)
                        requires
                            0 <= self.pay as int * count as int <= 0xffff_ffff * 42,
                            0 <= m <= 1440,
                    ;
                }
                (self.pay as u64 * count as u64 * m as u64) / 60
            },
        }
    }
}

} // verus!
