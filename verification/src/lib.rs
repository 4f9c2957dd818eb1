//! Core logic of a personal timesheet / pay calculator.
//!
//! The library derives a fixed 42-cell calendar grid from a
//! (year, month, day-offset) anchor, tracks per-cell selection and
//! assigned pay-configuration names, and evaluates the total pay owed.
//! Rendering, file storage and other I/O live outside this crate.

pub mod calendar;
pub mod cell;
pub mod config;
pub mod date;
pub mod failure;
pub mod grid;
pub mod ledger;
pub mod record;
pub mod util;

pub use failure::Failure;
