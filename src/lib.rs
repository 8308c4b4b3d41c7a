//! A personal time-tracking ledger: workdays with start, end and pause,
//! hours allocated to projects, and monthly totals per project.
//!
//! Hour quantities (pauses, booked hours, totals) are held as whole seconds
//! in `i64`; a quarter hour is 900 seconds.
//!
//! - `calendar`: dates, times of day and month names
//! - `model`: projects, project entries and workday records, with their hour arithmetic
//! - `ledger`: the store of records and projects and its operations
//! - `report`: monthly totals per project, and the years and months on record
//! - `choice`: what the interactive layer offers and accepts
//! - `codec`: how a collection file is loaded
pub mod calendar;
pub mod model;
pub mod ledger;
pub mod report;
pub mod choice;
pub mod codec;
