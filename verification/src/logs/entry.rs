//! The normalized log record.

use vstd::prelude::*;
use crate::text::text_of;

verus! {

/// One log record, whatever the shape of the line it was read from.
#[derive(Debug, PartialEq, Eq)]
pub struct LogEntry {
    /// In the host's own format; never read back as a time.
    pub timestamp: String,
    /// One of `error`, `warning`, `info`, `debug`, `default`.
    pub level: String,
    /// The name of the process that wrote the line.
    pub process: String,
    pub pid: Option<i32>,
    pub message: String,
    pub subsystem: Option<String>,
    pub category: Option<String>,
}

/// What a `LogEntry` holds, as mathematical values.
pub struct LogEntryView {
    pub timestamp: Seq<char>,
    pub level: Seq<char>,
    pub process: Seq<char>,
    pub pid: Option<i32>,
    pub message: Seq<char>,
    pub subsystem: Option<Seq<char>>,
    pub category: Option<Seq<char>>,
}

impl View for LogEntry {
    type V = LogEntryView;

    open spec fn view(&self) -> LogEntryView {
        LogEntryView {
            timestamp: self.timestamp@,
            level: self.level@,
            process: self.process@,
            pid: self.pid,
            message: self.message@,
            subsystem: text_of(self.subsystem),
            category: text_of(self.category),
        }
    }
}

/// The view of an optional entry.
pub open spec fn entry_of(e: Option<LogEntry>) -> Option<LogEntryView> {
    match e {
        Some(x) => Some(x@),
        None => None,
    }
}

/// Whether `level` is one of the five level names.
pub open spec fn is_level_name(level: Seq<char>) -> bool {
    ||| level == "error"@
    ||| level == "warning"@
    ||| level == "info"@
    ||| level == "debug"@
    ||| level == "default"@
}

impl LogEntryView {
    /// The invariant of a record: its level is one of the five level names.
    pub open spec fn well_formed(self) -> bool {
        is_level_name(self.level)
    }
}

/// A copy of an optional string.
pub fn clone_text(s: &Option<String>) -> (r: Option<String>)
    ensures
        r == *s,
{
    match s {
        Some(t) => Some(t.clone()),
        None => None,
    }
}

impl Clone for LogEntry {
    fn clone(&self) -> (r: Self)
        ensures
            r == *self,
    {
        LogEntry {
            timestamp: self.timestamp.clone(),
            level: self.level.clone(),
            process: self.process.clone(),
            pid: self.pid,
            message: self.message.clone(),
            subsystem: clone_text(&self.subsystem),
            category: clone_text(&self.category),
        }
    }
}

} // verus!
