//! The plain persisted form of a configuration: a rate-type tag, the pay
//! value, and for hourly rates the four clock fields of the window.
//!
//! The storage collaborator outside this crate turns these records into
//! bytes and back; the conversions here are the lossless part the core
//! owes it.

use vstd::prelude::*;

use crate::config::{Config, HourMinute, TimeWindow, Type, TypeForPickList};
use crate::failure::Failure;

verus! {

/// The four clock fields of a persisted time window.
#[derive(Debug, Clone, Copy, PartialEq, Eq, Structural)]
pub struct WindowRecord {
    /// Hour the window begins.
    pub begin_hour: u8,
    /// Minute the window begins.
    pub begin_minute: u8,
    /// Hour the window ends.
    pub end_hour: u8,
    /// Minute the window ends.
    pub end_minute: u8,
}

/// The persisted form of one configuration.
#[derive(Debug, Clone, Copy, PartialEq, Eq)]
pub struct ConfigRecord {
    /// Which rate type the record carries.
    pub kind: TypeForPickList,
    /// Pay in a minor currency unit.
    pub pay: u32,
    /// The window fields, present exactly for hourly records.
    pub window: Option<WindowRecord>,
}

/// The record of a configuration.
pub open spec fn spec_to_record(c: Config) -> ConfigRecord {
    match c.rate_type {
        Type::PerTime => ConfigRecord {
            kind: TypeForPickList::PerTime,
            pay: c.pay,
            window: None,
        },
        Type::PerHour(w) => ConfigRecord {
            kind: TypeForPickList::PerHour,
            pay: c.pay,
            window: Some(
                WindowRecord {
                    begin_hour: w.begin.hour,
                    begin_minute: w.begin.minute,
                    end_hour: w.end.hour,
                    end_minute: w.end.minute,
                },
            ),
        },
    }
}

/// The configuration a record describes, or the failure that rejects it:
/// an hourly record must carry a window whose hours are below 24 and
/// minutes below 60.
pub open spec fn spec_from_record(r: ConfigRecord) -> Result<Config, Failure> {
    match r.kind {
        TypeForPickList::PerTime => Ok(Config { rate_type: Type::PerTime, pay: r.pay }),
        TypeForPickList::PerHour => match r.window {
            None => Err(Failure::Duration),
            Some(w) => {
                if w.begin_hour < 24 && w.begin_minute < 60 && w.end_hour < 24 && w.end_minute
                    < 60 {
                    Ok(
                        Config {
                            rate_type: Type::PerHour(
                                TimeWindow {
                                    begin: HourMinute {
                                        hour: w.begin_hour,
                                        minute: w.begin_minute,
                                    },
                                    end: HourMinute { hour: w.end_hour, minute: w.end_minute },
                                },
                            ),
                            pay: r.pay,
                        },
                    )
                } else {
                    Err(Failure::Duration)
                }
            },
        },
    }
}

/// Turn a configuration into its persisted record.
pub fn to_record(c: &Config) -> (r: ConfigRecord)
    ensures
        r == spec_to_record(*c),
{
    match c.rate_type {
        Type::PerTime => ConfigRecord { kind: TypeForPickList::PerTime, pay: c.pay, window: None },
        Type::PerHour(w) => ConfigRecord {
            kind: TypeForPickList::PerHour,
            pay: c.pay,
            window: Some(
                WindowRecord {
                    begin_hour: w.begin.hour,
                    begin_minute: w.begin.minute,
                    end_hour: w.end.hour,
                    end_minute: w.end.minute,
                },
            ),
        },
    }
}

/// Read a configuration back from its persisted record; fails exactly on
/// hourly records whose window is missing or out of range.
pub fn from_record(r: &ConfigRecord) -> (c: Result<Config, Failure>)
    ensures
        c == spec_from_record(*r),
{
    match r.kind {
        TypeForPickList::PerTime => Ok(Config { rate_type: Type::PerTime, pay: r.pay }),
        TypeForPickList::PerHour => match r.window {
            None => Err(Failure::Duration),
            Some(w) => {
                match TimeWindow::from_hm(w.begin_hour, w.begin_minute, w.end_hour, w.end_minute) {
                    Ok(window) => Ok(Config { rate_type: Type::PerHour(window), pay: r.pay }),
                    Err(failure) => Err(failure),
                }
            },
        },
    }
}

/// A well-formed configuration survives the trip into its record and
/// back unchanged: rate type, pay and, for hourly rates, all four window
/// fields.
pub proof fn lemma_record_round_trip(c: Config)
    requires
        c.wf(),
    ensures
        spec_from_record(spec_to_record(c)) == Ok::<Config, Failure>(c),
{
}

/// A record that a read accepted is reproduced exactly by writing the
/// configuration out again, provided a flat-rate record carries no stray
/// window.
pub proof fn lemma_record_round_trip_back(r: ConfigRecord, c: Config)
    requires
        spec_from_record(r) == Ok::<Config, Failure>(c),
        r.kind is PerTime ==> r.window is None,
    ensures
        spec_to_record(c) == r,
{
}

} // verus!
