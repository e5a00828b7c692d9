//! The line parser: one raw line of log output to one normalized record.
//!
//! A line is tried as a structured record first, then as a compact text
//! line, and is otherwise kept whole as the message of a fallback record.
//! Only a line that is empty once trimmed yields nothing.

use vstd::prelude::*;
use crate::logs::entry::{entry_of, LogEntry, LogEntryView};
use crate::logs::structured::{
    decoded_record, entry_from_structured, json_decoded, read_structured, structured_entry,
};
use crate::numeral::{parse_i32, parse_i32_range};
use crate::text::{
    chars_of, find_char, first_index, is_whitespace, lemma_first_index_is_first, range_contains,
    string_of_range, trailing_whitespace, trim_bounds, trimmed, utf8_len, utf8_len_at_least,
};

verus! {

/// `s` cut at its first space: what stands before it and what follows it.
pub open spec fn split_at_space(s: Seq<char>) -> Option<(Seq<char>, Seq<char>)> {
    let p = first_index(s, ' ');
    if p < s.len() {
        Some((s.take(p), s.skip(p + 1)))
    } else {
        None
    }
}

/// The four parts of a compact line: three tokens and the remainder.
pub struct CompactParts {
    pub date: Seq<char>,
    pub time: Seq<char>,
    pub host: Seq<char>,
    pub rest: Seq<char>,
}

/// `t` cut at its first three spaces, where it has as many.
pub open spec fn compact_parts(t: Seq<char>) -> Option<CompactParts> {
    match split_at_space(t) {
        Some((date, after_date)) => match split_at_space(after_date) {
            Some((time, after_time)) => match split_at_space(after_time) {
                Some((host, rest)) => Some(CompactParts { date, time, host, rest }),
                None => None,
            },
            None => None,
        },
        None => None,
    }
}

/// A token looks like a date where it takes at least ten bytes and holds a
/// hyphen.
pub open spec fn looks_like_date(token: Seq<char>) -> bool {
    utf8_len(token) >= 10 && token.contains('-')
}

/// The entry that the trimmed line `t` gives in the compact form
/// `<date> <time> <host> <name>[<id>] <message>`, or `None` where it does
/// not have that form.
///
/// In the remainder after the three leading tokens, the name is what stands
/// before the first `[`, the id what stands between it and the first `]`,
/// read as a decimal integer, and the message what follows that `]`,
/// trimmed. A remainder in which no `[` stands before the first `]` has not
/// the form.
pub open spec fn compact_entry(t: Seq<char>) -> Option<LogEntryView> {
    match compact_parts(t) {
        Some(parts) => {
            let open = first_index(parts.rest, '[');
            let close = first_index(parts.rest, ']');
            if looks_like_date(parts.date) && open < close && close < parts.rest.len() {
                Some(
                    LogEntryView {
                        timestamp: parts.date + seq![' '] + parts.time,
                        level: "default"@,
                        process: parts.rest.take(open),
                        pid: parse_i32(parts.rest.subrange(open + 1, close)),
                        message: trimmed(parts.rest.skip(close + 1)),
                        subsystem: None,
                        category: None,
                    },
                )
            } else {
                None
            }
        },
        None => None,
    }
}

/// The entry that stands for a line of no known form: the whole trimmed line
/// as the message, stamped with the time of reading.
pub open spec fn fallback_entry(message: Seq<char>, now: Seq<char>) -> LogEntryView {
    LogEntryView {
        timestamp: now,
        level: "default"@,
        process: "system"@,
        pid: None,
        message,
        subsystem: None,
        category: None,
    }
}

/// The entry that `line` gives in the structured form: it starts with `{`
/// and is a valid JSON document.
pub open spec fn structured_line(line: Seq<char>) -> Option<LogEntryView> {
    if line.len() > 0 && line[0] == '{' {
        match decoded_record(line) {
            Some(record) => Some(structured_entry(record)),
            None => None,
        }
    } else {
        None
    }
}

/// The entry that `line` gives as plain text, read at the time `now`: the
/// compact form where the trimmed line has it, the fallback otherwise, and
/// nothing where the trimmed line is empty.
pub open spec fn plain_line(line: Seq<char>, now: Seq<char>) -> Option<LogEntryView> {
    let t = trimmed(line);
    if t.len() == 0 {
        None
    } else {
        match compact_entry(t) {
            Some(e) => Some(e),
            None => Some(fallback_entry(t, now)),
        }
    }
}

/// The entry that `line` gives, read at the time `now`.
pub open spec fn parsed(line: Seq<char>, now: Seq<char>) -> Option<LogEntryView> {
    match structured_line(line) {
        Some(e) => Some(e),
        None => plain_line(line, now),
    }
}

/// The time at which an entry says it was read, for an entry that came
/// from the fallback.
pub open spec fn reading_time(e: Option<LogEntryView>) -> Seq<char> {
    match e {
        Some(x) => x.timestamp,
        None => Seq::empty(),
    }
}

/// The current local time in RFC 3339 form, from
/// `chrono::Local::now().to_rfc3339()`. Nothing is claimed of the text.
/// chrono panics where the system clock stands before 1970.
#[verifier::external_body]
fn local_timestamp() -> (now: String) {
    chrono::Local::now().to_rfc3339()
}

/// A string that does not start with whitespace keeps its first character
/// when trimmed.
pub proof fn lemma_trimmed_keeps_start(s: Seq<char>)
    requires
        s.len() > 0,
        !is_whitespace(s[0]),
    ensures
        trimmed(s).len() > 0,
{
    assert(s.skip(0) == s);
    lemma_trailing_stops(s, 0);
}

/// The trailing whitespace of `s` ends after any character that is none.
pub proof fn lemma_trailing_stops(s: Seq<char>, i: int)
    requires
        0 <= i < s.len(),
        !is_whitespace(s[i]),
    ensures
        trailing_whitespace(s) <= s.len() - 1 - i,
    decreases s.len(),
{
    if i < s.len() - 1 && is_whitespace(s.last()) {
        lemma_trailing_stops(s.drop_last(), i);
    }
}

/// Only a line that is empty once trimmed yields nothing; every other line
/// yields an entry, whatever the time of reading.
pub proof fn lemma_parse_is_total(line: Seq<char>, now: Seq<char>)
    ensures
        parsed(line, now) is None <==> trimmed(line).len() == 0,
{
    if line.len() > 0 && line[0] == '{' {
        lemma_trimmed_keeps_start(line);
    }
}

/// A line that starts with `{` and is no valid JSON document is read as
/// plain text: it is tried in the compact form and, failing that, kept as a
/// fallback entry.
pub proof fn lemma_undecodable_is_plain(line: Seq<char>, now: Seq<char>)
    requires
        line.len() > 0,
        line[0] == '{',
        json_decoded(line) is None,
    ensures
        parsed(line, now) == plain_line(line, now),
        parsed(line, now) is Some,
{
    lemma_trimmed_keeps_start(line);
}

/// Every entry that a line gives has one of the five levels.
pub proof fn lemma_parsed_is_well_formed(line: Seq<char>, now: Seq<char>)
    ensures
        parsed(line, now) matches Some(e) ==> e.well_formed(),
{
}

/// Makes the fallback entry for `message`, read at the time `now`.
pub fn make_fallback(message: String, now: String) -> (e: LogEntry)
    ensures
        e@ == fallback_entry(message@, now@),
{
    LogEntry {
        timestamp: now,
        level: "default".to_owned(),
        process: "system".to_owned(),
        pid: None,
        message,
        subsystem: None,
        category: None,
    }
}

/// Finds the first three spaces of `chars[from..to]`.
fn split_compact(chars: &Vec<char>, from: usize, to: usize) -> (r: Option<(usize, usize, usize)>)
    requires
        from <= to <= chars.len(),
    ensures
        match r {
            Some((first, second, third)) => {
                &&& from <= first < second < third < to
                &&& chars@[first as int] == ' '
                &&& compact_parts(chars@.subrange(from as int, to as int)) == Some(
                    CompactParts {
                        date: chars@.subrange(from as int, first as int),
                        time: chars@.subrange(first + 1, second as int),
                        host: chars@.subrange(second + 1, third as int),
                        rest: chars@.subrange(third + 1, to as int),
                    },
                )
            },
            None => compact_parts(chars@.subrange(from as int, to as int)) is None,
        },
{
    let ghost t = chars@.subrange(from as int, to as int);
    let first = find_char(chars, from, to, ' ');
    if first >= to {
        return None;
    }
    proof {
        lemma_first_index_is_first(t, ' ');
    }
    let ghost after_date = t.skip(first - from + 1);
    assert(t.take(first - from) == chars@.subrange(from as int, first as int));
    assert(after_date == chars@.subrange(first + 1, to as int));
    let second = find_char(chars, first + 1, to, ' ');
    if second >= to {
        return None;
    }
    let ghost after_time = after_date.skip(second - first);
    assert(after_date.take(second - first - 1) == chars@.subrange(first + 1, second as int));
    assert(after_time == chars@.subrange(second + 1, to as int));
    let third = find_char(chars, second + 1, to, ' ');
    if third >= to {
        return None;
    }
    assert(after_time.take(third - second - 1) == chars@.subrange(second + 1, third as int));
    assert(after_time.skip(third - second) == chars@.subrange(third + 1, to as int));
    Some((first, second, third))
}

/// Reads `chars[from..to]`, a trimmed line, in the compact form.
pub fn parse_compact_text(chars: &Vec<char>, from: usize, to: usize) -> (r: Option<LogEntry>)
    requires
        from <= to <= chars.len(),
    ensures
        entry_of(r) == compact_entry(chars@.subrange(from as int, to as int)),
{
    let (first, second, third) = match split_compact(chars, from, to) {
        Some(positions) => positions,
        None => {
            return None;
        },
    };
    let ghost date = chars@.subrange(from as int, first as int);
    let ghost time = chars@.subrange(first + 1, second as int);
    let ghost rest = chars@.subrange(third + 1, to as int);
    if !(utf8_len_at_least(chars, from, first, 10) && range_contains(chars, from, first, '-')) {
        return None;
    }
    let open = find_char(chars, third + 1, to, '[');
    let close = find_char(chars, third + 1, to, ']');
    if !(open < close && close < to) {
        return None;
    }
    let timestamp = string_of_range(chars, from, second);
    let process = string_of_range(chars, third + 1, open);
    let pid = parse_i32_range(chars, open + 1, close);
    let (m0, m1) = trim_bounds(chars, close + 1, to);
    let message = string_of_range(chars, m0, m1);
    proof {
        assert(timestamp@ =~= date + seq![' '] + time);
        assert(process@ == rest.take(open - third - 1));
        assert(chars@.subrange(open + 1, close as int) == rest.subrange(
            open - third,
            close - third - 1,
        ));
        assert(chars@.subrange(close + 1, to as int) == rest.skip(close - third));
    }
    Some(
        LogEntry {
            timestamp,
            level: "default".to_owned(),
            process,
            pid,
            message,
            subsystem: None,
            category: None,
        },
    )
}

/// What a line is before the clock is read: an entry, nothing, or text for
/// a fallback entry.
enum Reading {
    Entry(LogEntry),
    Blank,
    Unknown(String),
}

fn read_line(line: &str) -> (r: Reading)
    ensures
        match r {
            Reading::Entry(e) => forall|now: Seq<char>| parsed(line@, now) == Some(e@),
            Reading::Blank => forall|now: Seq<char>| parsed(line@, now) is None,
            Reading::Unknown(message) => forall|now: Seq<char>|
                parsed(line@, now) == Some(fallback_entry(message@, now)),
        },
{
    let chars = chars_of(line);
    if chars.len() > 0 && chars[0] == '{' {
        match read_structured(line) {
            Some(record) => {
                return Reading::Entry(entry_from_structured(record));
            },
            None => {},
        }
    }
    let (a, b) = trim_bounds(&chars, 0, chars.len());
    assert(chars@.subrange(0, chars.len() as int) == chars@);
    if a == b {
        return Reading::Blank;
    }
    match parse_compact_text(&chars, a, b) {
        Some(e) => Reading::Entry(e),
        None => Reading::Unknown(string_of_range(&chars, a, b)),
    }
}

/// Parses `line` as it would be read at the time `now`.
pub fn parse_line_at(line: &str, now: &str) -> (r: Option<LogEntry>)
    ensures
        entry_of(r) == parsed(line@, now@),
        r is None <==> trimmed(line@).len() == 0,
        r matches Some(e) ==> e@.well_formed(),
{
    proof {
        lemma_parse_is_total(line@, now@);
    }
    match read_line(line) {
        Reading::Entry(e) => Some(e),
        Reading::Blank => None,
        Reading::Unknown(message) => Some(make_fallback(message, now.to_owned())),
    }
}

/// Parses one line of log output. A line of no known form is stamped with
/// the local time at which it is read; the clock is not read otherwise.
pub fn parse_compact_line(line: &str) -> (r: Option<LogEntry>)
    ensures
        entry_of(r) == parsed(line@, reading_time(entry_of(r))),
        r is None <==> trimmed(line@).len() == 0,
        r matches Some(e) ==> e@.well_formed(),
{
    proof {
        lemma_parse_is_total(line@, Seq::empty());
    }
    match read_line(line) {
        Reading::Entry(e) => Some(e),
        Reading::Blank => None,
        Reading::Unknown(message) => {
            let now = local_timestamp();
            proof {
                lemma_parse_is_total(line@, now@);
            }
            Some(make_fallback(message, now))
        },
    }
}

} // verus!
