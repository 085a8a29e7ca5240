//! Recurring schedules kept on disk in a small versioned binary format,
//! with a grammar for quick relative dates and durations.

pub mod cli;
pub mod codec;
pub mod grammar;
pub mod schedule;
pub mod temporal;
