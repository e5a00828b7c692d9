//! Historical queries: the command that asks the host for the records of
//! the last minutes, and what is made of its output.

use vstd::prelude::*;
use crate::logs::buffer::{last_of, views};
use crate::logs::entry::{LogEntry, LogEntryView};
use crate::logs::parser::{parse_compact_line, parsed};
use crate::numeral::{decimal, push_decimal};
use crate::text::{
    chars_of, line_bounds, lines, slice_text, string_of_range, texts, trimmed,
};

verus! {

/// The most records that a query gives.
pub const MAX_RESULTS: usize = 500;

/// The program that reads the host's log, and the arguments that make it
/// write the records of the last `minutes` minutes in the compact style.
/// The predicate, where there is one, is handed on as it is.
pub open spec fn query_command(minutes: u32, predicate: Option<Seq<char>>) -> Seq<Seq<char>> {
    let fixed = seq![
        "log"@,
        "show"@,
        "--last"@,
        decimal(minutes as nat).push('m'),
        "--style"@,
        "compact"@,
    ];
    match predicate {
        Some(p) => fixed.push("--predicate"@).push(p),
        None => fixed,
    }
}

/// The program that reads the host's log, and the arguments that make it
/// write records as they come, from the level `info` up, in the compact
/// style.
pub open spec fn stream_command() -> Seq<Seq<char>> {
    seq!["log"@, "stream"@, "--style"@, "compact"@, "--level"@, "info"@]
}

/// The command line of a query, the program first.
pub fn query_arguments(last_minutes: u32, predicate: Option<&str>) -> (args: Vec<String>)
    ensures
        texts(args@) == query_command(last_minutes, slice_text(predicate)),
{
    let mut window = String::new();
    push_decimal(&mut window, last_minutes as u64);
    window.push('m');
    assert(window@ == decimal(last_minutes as nat).push('m'));
    let mut args: Vec<String> = Vec::new();
    args.push("log".to_owned());
    args.push("show".to_owned());
    args.push("--last".to_owned());
    args.push(window);
    args.push("--style".to_owned());
    args.push("compact".to_owned());
    assert(texts(args@) == query_command(last_minutes, None));
    match predicate {
        Some(p) => {
            args.push("--predicate".to_owned());
            args.push(p.to_owned());
            assert(texts(args@) == query_command(last_minutes, None).push("--predicate"@).push(
                p@,
            ));
        },
        None => {},
    }
    args
}

/// The command line of the stream, the program first.
pub fn stream_arguments() -> (args: Vec<String>)
    ensures
        texts(args@) == stream_command(),
{
    let mut args: Vec<String> = Vec::new();
    args.push("log".to_owned());
    args.push("stream".to_owned());
    args.push("--style".to_owned());
    args.push("compact".to_owned());
    args.push("--level".to_owned());
    args.push("info".to_owned());
    assert(texts(args@) == stream_command());
    args
}

/// Splits `text` into its lines.
pub fn split_lines(text: &str) -> (found: Vec<String>)
    ensures
        texts(found@) == lines(text@),
{
    let chars = chars_of(text);
    assert(chars@.subrange(0, chars.len() as int) == chars@);
    let bounds = line_bounds(&chars, 0, chars.len());
    let mut found: Vec<String> = Vec::new();
    let mut i: usize = 0;
    while i < bounds.len()
        invariant
            i <= bounds.len(),
            bounds@.len() == lines(chars@).len(),
            forall|k: int|
                0 <= k < bounds@.len() ==> {
                    &&& (#[trigger] bounds@[k]).0 <= bounds@[k].1 <= chars.len()
                    &&& chars@.subrange(bounds@[k].0 as int, bounds@[k].1 as int) == lines(
                        chars@,
                    )[k]
                },
            texts(found@) == lines(chars@).take(i as int),
        decreases bounds.len() - i,
    {
        let line = string_of_range(&chars, bounds[i].0, bounds[i].1);
        found.push(line);
        assert(texts(found@) == lines(chars@).take(i as int).push(line@));
        i += 1;
    }
    assert(lines(chars@).take(i as int) == lines(chars@));
    found
}

/// Those of `lines` that are not empty once trimmed, in their order.
pub open spec fn legible(lines: Seq<Seq<char>>) -> Seq<Seq<char>>
    decreases lines.len(),
{
    if lines.len() == 0 {
        Seq::empty()
    } else if trimmed(lines.last()).len() == 0 {
        legible(lines.drop_last())
    } else {
        legible(lines.drop_last()).push(lines.last())
    }
}

/// Whether `entries` are what `lines` give, line by line, each read at the
/// time that its entry shows.
pub open spec fn read_from(entries: Seq<LogEntryView>, lines: Seq<Seq<char>>) -> bool {
    &&& entries.len() == lines.len()
    &&& forall|i: int|
        0 <= i < entries.len() ==> parsed(lines[i], (#[trigger] entries[i]).timestamp) == Some(
            entries[i],
        )
}

/// Parses each of `lines`, and leaves out those that are empty once
/// trimmed.
pub fn parse_lines(lines: &Vec<String>) -> (entries: Vec<LogEntry>)
    ensures
        read_from(views(entries@), legible(texts(lines@))),
{
    let ghost all = texts(lines@);
    let mut entries: Vec<LogEntry> = Vec::new();
    let mut i: usize = 0;
    while i < lines.len()
        invariant
            i <= lines.len(),
            all == texts(lines@),
            read_from(views(entries@), legible(all.take(i as int))),
        decreases lines.len() - i,
    {
        let ghost before = views(entries@);
        let ghost kept = legible(all.take(i as int));
        assert(all.take(i + 1).drop_last() == all.take(i as int));
        assert(all.take(i + 1).last() == lines@[i as int]@);
        match parse_compact_line(lines[i].as_str()) {
            Some(e) => {
                entries.push(e);
                proof {
                    let after = views(entries@);
                    assert(after == before.push(e@));
                    assert forall|k: int| 0 <= k < after.len() implies parsed(
                        kept.push(lines@[i as int]@)[k],
                        (#[trigger] after[k]).timestamp,
                    ) == Some(after[k]) by {
                        if k < before.len() {
                            assert(after[k] == before[k]);
                        }
                    }
                }
            },
            None => {},
        }
        i += 1;
    }
    assert(all.take(i as int) == all);
    entries
}

/// The entries that the output of a query gives: its lines parsed, those
/// left out that are empty once trimmed, and of the rest the last
/// `MAX_RESULTS`, oldest first.
pub fn query_entries(stdout: &str) -> (entries: Vec<LogEntry>)
    ensures
        read_from(views(entries@), last_of(legible(lines(stdout@)), MAX_RESULTS as int)),
        entries@.len() <= MAX_RESULTS,
{
    let found = split_lines(stdout);
    let mut entries = parse_lines(&found);
    let ghost all = views(entries@);
    let ghost kept = legible(lines(stdout@));
    if entries.len() > MAX_RESULTS {
        let surplus: usize = entries.len() - MAX_RESULTS;
        let newest = entries.split_off(surplus);
        proof {
            let last = views(newest@);
            assert(last == all.skip(surplus as int));
            assert forall|i: int| 0 <= i < last.len() implies parsed(
                kept.skip(surplus as int)[i],
                (#[trigger] last[i]).timestamp,
            ) == Some(last[i]) by {
                assert(last[i] == all[i + surplus]);
            }
        }
        entries = newest;
    }
    entries
}

/// How the history command ended.
#[derive(Debug, PartialEq, Eq)]
pub struct CommandOutput {
    /// Whether it exited with success.
    pub success: bool,
    /// What it wrote to its standard output.
    pub stdout: String,
}

/// The result of a query, from how the history command ended: `None` where
/// it could not be run. A command that could not be run, or did not exit
/// with success, gives no entries; otherwise its output is read as
/// `query_entries` says.
pub fn query_logs(output: Option<CommandOutput>) -> (entries: Vec<LogEntry>)
    ensures
        match output {
            Some(o) if o.success => read_from(
                views(entries@),
                last_of(legible(lines(o.stdout@)), MAX_RESULTS as int),
            ),
            _ => entries@.len() == 0,
        },
        entries@.len() <= MAX_RESULTS,
{
    match output {
        Some(o) => {
            if o.success {
                query_entries(o.stdout.as_str())
            } else {
                Vec::new()
            }
        },
        None => Vec::new(),
    }
}

} // verus!
