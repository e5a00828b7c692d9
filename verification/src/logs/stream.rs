//! The stream lifecycle: what to do when a start or a stop is asked for,
//! when the log process cannot be launched, when it writes a line and when
//! its output ends.
//!
//! The context owns the rolling buffer and the running flag. Whoever runs
//! the log process reports each event to `step` and carries out the action
//! that it answers with; the context itself starts nothing and waits for
//! nothing.

use vstd::prelude::*;
use crate::logs::activity::{is_summary, row_views, summarize};
use crate::logs::buffer::{appended, last_of, views, LogBuffer, MAX_BUFFER};
use crate::logs::entry::{LogEntry, LogEntryView};
use crate::logs::parser::{lemma_parse_is_total, parse_compact_line, parsed, reading_time};

verus! {

/// What happened to the stream.
pub enum StreamEvent {
    /// A start was asked for.
    StartRequested,
    /// A stop was asked for.
    StopRequested,
    /// The log process could not be launched.
    LaunchFailed,
    /// The log process wrote a line.
    Line(String),
    /// The output of the log process ended, or the process was terminated.
    Ended,
}

/// What is to be done about it.
#[derive(Debug, PartialEq, Eq, Structural, Clone, Copy)]
pub enum StreamAction {
    /// Nothing.
    Nothing,
    /// Launch the log process and read its output.
    Launch,
    /// Read the next line.
    ReadNext,
    /// Terminate the log process, then report `Ended`.
    Terminate,
}

/// The state of the log subsystem as mathematical values.
pub struct StreamState {
    /// Whether the stream is running, or being launched.
    pub running: bool,
    /// The records in the buffer, oldest first.
    pub entries: Seq<LogEntryView>,
}

/// The state after a start is asked for, and whether the log process is to
/// be launched: it is where the stream was idle, and never where it runs.
pub open spec fn after_start(s: StreamState) -> (StreamState, StreamAction) {
    if s.running {
        (s, StreamAction::Nothing)
    } else {
        (StreamState { running: true, ..s }, StreamAction::Launch)
    }
}

/// The state after the stream is told to stop, or has ended.
pub open spec fn after_stop(s: StreamState) -> StreamState {
    StreamState { running: false, ..s }
}

/// The state after the log process wrote a line that reads as `entry`:
/// while the stream runs the entry, if there is one, goes into the buffer
/// and the next line is read; once a stop was asked for the line is dropped
/// and the process is to be terminated.
pub open spec fn after_line(s: StreamState, entry: Option<LogEntryView>) -> (
    StreamState,
    StreamAction,
) {
    if !s.running {
        (s, StreamAction::Terminate)
    } else {
        match entry {
            Some(e) => (StreamState { entries: appended(s.entries, e), ..s }, StreamAction::ReadNext),
            None => (s, StreamAction::ReadNext),
        }
    }
}

/// A start asked for twice in a row launches one log process at most: the
/// second request changes nothing and launches nothing, and the first
/// launches exactly where the stream was idle.
pub proof fn lemma_start_twice_launches_once(s: StreamState)
    ensures
        after_start(after_start(s).0) == (after_start(s).0, StreamAction::Nothing),
        after_start(s).0.running,
        after_start(s).1 == StreamAction::Launch <==> !s.running,
        after_start(s).0.entries == s.entries,
{
}

/// After a stop, or after the stream has ended for whatever reason, a start
/// launches the log process anew.
pub proof fn lemma_start_after_stop_launches(s: StreamState)
    ensures
        after_start(after_stop(s)).1 == StreamAction::Launch,
{
}

/// The log subsystem: the rolling buffer and the running flag.
pub struct LogContext {
    buffer: LogBuffer,
    running: bool,
}

impl View for LogContext {
    type V = StreamState;

    closed spec fn view(&self) -> StreamState {
        StreamState { running: self.running, entries: self.buffer@ }
    }
}

impl LogContext {
    /// An idle context with an empty buffer.
    pub fn new() -> (ctx: Self)
        ensures
            !ctx@.running,
            ctx@.entries == Seq::<LogEntryView>::empty(),
    {
        LogContext { buffer: LogBuffer::new(), running: false }
    }

    /// Whether the stream is running.
    pub fn is_running(&self) -> (running: bool)
        ensures
            running == self@.running,
    {
        self.running
    }

    /// How many records the buffer holds.
    pub fn len(&self) -> (n: usize)
        ensures
            n == self@.entries.len(),
            n <= MAX_BUFFER,
    {
        self.buffer.len()
    }

    /// Takes in a line that the log process wrote. A line of no known form
    /// is stamped with the time at which it is read, which the newest record
    /// in the buffer then shows.
    pub fn accept_line(&mut self, line: &str) -> (action: StreamAction)
        ensures
            (final(self)@, action) == after_line(
                old(self)@,
                parsed(line@, reading_time(newest(final(self)@.entries))),
            ),
    {
        if !self.running {
            return StreamAction::Terminate;
        }
        match parse_compact_line(line) {
            Some(e) => {
                self.buffer.append(e);
            },
            None => {
                proof {
                    lemma_parse_is_total(line@, Seq::empty());
                    lemma_parse_is_total(line@, reading_time(newest(self@.entries)));
                }
            },
        }
        StreamAction::ReadNext
    }

    /// Answers an event of the stream with the action to take.
    pub fn step(&mut self, event: StreamEvent) -> (action: StreamAction)
        ensures
            (final(self)@, action) == match event {
                StreamEvent::StartRequested => after_start(old(self)@),
                StreamEvent::StopRequested | StreamEvent::LaunchFailed | StreamEvent::Ended => (
                    after_stop(old(self)@),
                    StreamAction::Nothing,
                ),
                StreamEvent::Line(line) => after_line(
                    old(self)@,
                    parsed(line@, reading_time(newest(final(self)@.entries))),
                ),
            },
    {
        match event {
            StreamEvent::StartRequested => {
                if start_log_stream(self) {
                    StreamAction::Launch
                } else {
                    StreamAction::Nothing
                }
            },
            StreamEvent::StopRequested | StreamEvent::LaunchFailed | StreamEvent::Ended => {
                stop_log_stream(self);
                StreamAction::Nothing
            },
            StreamEvent::Line(line) => self.accept_line(line.as_str()),
        }
    }
}

/// The newest of `entries`.
pub open spec fn newest(entries: Seq<LogEntryView>) -> Option<LogEntryView> {
    if entries.len() > 0 {
        Some(entries.last())
    } else {
        None
    }
}

/// Asks for the stream to run. Returns whether the log process is to be
/// launched: a context that is running already stays as it is.
pub fn start_log_stream(ctx: &mut LogContext) -> (launch: bool)
    ensures
        (final(ctx)@, if launch {
            StreamAction::Launch
        } else {
            StreamAction::Nothing
        }) == after_start(old(ctx)@),
        launch == !old(ctx)@.running,
{
    let launch = !ctx.running;
    ctx.running = true;
    launch
}

/// Asks for the stream to stop. The flag falls at once; the log process is
/// terminated when its next line arrives.
pub fn stop_log_stream(ctx: &mut LogContext)
    ensures
        final(ctx)@ == after_stop(old(ctx)@),
{
    ctx.running = false;
}

/// The last `count` records of the buffer, or all of them where it holds
/// fewer, in order of arrival.
pub fn get_recent_logs(ctx: &LogContext, count: usize) -> (recent: Vec<LogEntry>)
    ensures
        views(recent@) == last_of(ctx@.entries, count as int),
        recent@.len() <= count,
        recent@.len() <= ctx@.entries.len(),
{
    ctx.buffer.recent(count)
}

/// The activity of each process in the buffer: its name, the number of its
/// records and the greatest of their timestamps, the processes with more
/// records first.
pub fn get_active_log_processes(ctx: &LogContext) -> (summary: Vec<(String, usize, String)>)
    ensures
        is_summary(row_views(summary@), ctx@.entries),
{
    summarize(ctx.buffer.entries())
}

} // verus!
