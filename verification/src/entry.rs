//! The data model: months, dates, times, durations, and parsed entries.

use vstd::prelude::*;

verus! {

/// A calendar month, a parsed classification only.
#[derive(Clone, Copy, Debug, PartialEq, Eq, Structural)]
pub enum Month {
    January,
    February,
    March,
    April,
    May,
    June,
    July,
    August,
    September,
    October,
    November,
    December,
}

/// A calendar date as written on the line. Neither the day nor the year is
/// range-checked beyond fitting its width.
#[derive(Clone, Copy, Debug, PartialEq, Eq, Structural)]
pub struct Date {
    pub day: u8,
    pub month: Month,
    pub year: u16,
}

/// A time of day as written on the line; the hour is not range-checked.
#[derive(Clone, Copy, Debug, PartialEq, Eq, Structural)]
pub struct Time {
    pub hour: u8,
    pub minute: u8,
}

/// A span of whole seconds.
#[derive(Clone, Copy, Debug, PartialEq, Eq, Structural)]
pub struct Duration {
    pub secs: u64,
}

impl Duration {
    /// The span of `secs` whole seconds.
    pub fn from_secs(secs: u64) -> (d: Duration)
        ensures
            d.secs == secs,
    {
        Duration { secs }
    }

    /// The length of the span in whole seconds.
    pub fn as_secs(&self) -> (s: u64)
        ensures
            s == self.secs,
    {
        self.secs
    }
}

/// One fully parsed reminder record.
#[derive(Debug, PartialEq)]
pub struct Entry {
    pub date: Date,
    pub duration: Duration,
    pub msg: String,
    pub time: Time,
}

/// The mathematical value of an [`Entry`]: the same fields, with the message
/// as a sequence of characters and the duration as an unbounded integer.
pub ghost struct EntryModel {
    pub date: Date,
    pub time: Time,
    pub dur_secs: int,
    pub msg: Seq<char>,
}

impl View for Entry {
    type V = EntryModel;

    open spec fn view(&self) -> EntryModel {
        EntryModel {
            date: self.date,
            time: self.time,
            dur_secs: self.duration.secs as int,
            msg: self.msg@,
        }
    }
}

impl DeepView for Entry {
    type V = EntryModel;

    open spec fn deep_view(&self) -> EntryModel {
        self.view()
    }
}

} // verus!
