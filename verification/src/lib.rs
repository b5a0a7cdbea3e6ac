//! A line-oriented parser for "REM"-style reminder entries.
//!
//! Each input line of the form
//! `REM <mon> <day> <year> AT <hh>:<mm> DURATION <hh>:<mm> MSG <free text>`
//! is parsed into an [`Entry`] holding a date, a start time, a duration in
//! seconds, and the message text. Malformed lines are skipped; they never
//! abort the parse of the remaining lines.

pub mod chars;
pub mod entry;
pub mod grammar;
pub mod laws;
pub mod parser;
pub mod text;

pub use entry::{Date, Duration, Entry, Month, Time};
pub use parser::{parse, Parser};
