//! Error kinds shared by the calendar, configuration and ledger code.

use vstd::prelude::*;

verus! {

/// Everything that can go wrong while driving the core: invalid dates,
/// invalid durations, out-of-range cell indices, and the failures that the
/// surrounding shell reports through the same channel (parsing, load/save).
#[derive(Debug, Clone, Copy, PartialEq, Eq, Structural)]
pub enum Failure {
    /// A cell position outside the 42-slot grid was referenced.
    Cell(usize),
    /// The day-offset input is not a number.
    Offset,
    /// The year input is not a number.
    Year,
    /// Loading a stored configuration set failed.
    Load,
    /// Storing the configuration set failed.
    Save,
    /// Storing was requested without a file name.
    SaveEmptyName,
    /// The pay input is not a number.
    Pay,
    /// Deleting a stored file failed.
    FileRemove,
    /// An hour or minute input is not a number.
    DurationParse,
    /// An hour is 24 or more, or a minute is 60 or more.
    Duration,
    /// The year/month/day-offset triple is not a real calendar date.
    Date,
}

} // verus!
