//! A personal time-tracking library: parsing of human-entered day and
//! duration expressions, week- and month-aligned calendar ranges, per-day
//! aggregation of work-log entries, a week-by-week grid renderer, and a
//! time-bounded cache for rendered text.
//!
//! Every function here carries a contract; the ambient clock is passed in
//! as plain values so a whole operation observes one instant.

pub mod strutil;
pub mod dates;
pub mod models;
pub mod calendar;
pub mod parser;
pub mod holidays;
pub mod render;
pub mod cache;
pub mod clock;
pub mod config;
pub mod cli;
pub mod version;
pub mod dayfilter;
