//! The structured line form: a JSON object whose members name the fields of
//! a record.
//!
//! Decoding is done by `serde_json`, behind three small trusted functions.
//! What they hand over is copied into a `StructuredRecord`, and from there on
//! everything is verified.

use vstd::prelude::*;
use crate::logs::entry::{LogEntry, LogEntryView};
use crate::logs::level::{classify_level, level_of};
use crate::text::{chars_of, last_segment, last_segment_start, string_of_range, text_of};

verus! {

#[verifier::external_type_specification]
#[verifier::external_body]
pub struct ExJsonValue(serde_json::Value);

/// What a member of a JSON object holds, as far as a record is read from it.
pub enum JsonScalar {
    /// A JSON string.
    Text(Seq<char>),
    /// A JSON number that `serde_json` holds as an integer within the range
    /// of `i64`: one for which `as_i64` gives a value.
    Integer(i64),
}

/// The members of the JSON object `v` that hold a string or such an
/// integer, by key. Members that hold anything else are left out, and a
/// value that is no object has none.
pub uninterp spec fn json_members(v: serde_json::Value) -> Map<Seq<char>, JsonScalar>;

/// The members of the JSON document that `text` writes, as `json_members`
/// gives them, or `None` where `text` is not one valid JSON document.
pub uninterp spec fn json_decoded(text: Seq<char>) -> Option<Map<Seq<char>, JsonScalar>>;

/// `serde_json::from_str` at type `serde_json::Value`, its error dropped:
/// `Some` exactly where `text` is one valid JSON document, holding its value.
#[verifier::external_body]
fn decode_json(text: &str) -> (r: Option<serde_json::Value>)
    ensures
        match r {
            Some(v) => json_decoded(text@) == Some(json_members(v)),
            None => json_decoded(text@) is None,
        },
{
    serde_json::from_str::<serde_json::Value>(text).ok()
}

/// `v[key].as_str()`, copied: the string under `key` where `v` is an object
/// that holds a string there, otherwise `None`. Indexing a
/// `serde_json::Value` by a string never panics.
#[verifier::external_body]
fn text_member(v: &serde_json::Value, key: &str) -> (r: Option<String>)
    ensures
        text_of(r) == text_at(json_members(*v), key@),
{
    v[key].as_str().map(|s| s.to_string())
}

/// `v[key].as_i64()`: the number under `key` where `v` is an object that
/// holds an integer within the range of `i64` there, otherwise `None`. A
/// number with a fraction or an exponent is no integer to `serde_json`.
#[verifier::external_body]
fn integer_member(v: &serde_json::Value, key: &str) -> (r: Option<i64>)
    ensures
        r == integer_at(json_members(*v), key@),
{
    v[key].as_i64()
}

/// The string under `key`, if there is one.
pub open spec fn text_at(members: Map<Seq<char>, JsonScalar>, key: Seq<char>) -> Option<
    Seq<char>,
> {
    if members.contains_key(key) {
        match members[key] {
            JsonScalar::Text(s) => Some(s),
            JsonScalar::Integer(_) => None,
        }
    } else {
        None
    }
}

/// The integer under `key`, if there is one.
pub open spec fn integer_at(members: Map<Seq<char>, JsonScalar>, key: Seq<char>) -> Option<i64> {
    if members.contains_key(key) {
        match members[key] {
            JsonScalar::Text(_) => None,
            JsonScalar::Integer(n) => Some(n),
        }
    } else {
        None
    }
}

/// The members of a structured line that a record is made from. A member
/// that is missing, or holds a value of another type, is `None`.
#[derive(Debug, PartialEq, Eq)]
pub struct StructuredRecord {
    /// `timestamp`
    pub timestamp: Option<String>,
    /// `messageType`
    pub message_type: Option<String>,
    /// `processImagePath`
    pub process_image_path: Option<String>,
    /// `process`
    pub process: Option<String>,
    /// `processID`
    pub process_id: Option<i64>,
    /// `eventMessage`
    pub event_message: Option<String>,
    /// `message`
    pub message: Option<String>,
    /// `subsystem`
    pub subsystem: Option<String>,
    /// `category`
    pub category: Option<String>,
}

/// What a `StructuredRecord` holds, as mathematical values.
pub struct StructuredRecordView {
    pub timestamp: Option<Seq<char>>,
    pub message_type: Option<Seq<char>>,
    pub process_image_path: Option<Seq<char>>,
    pub process: Option<Seq<char>>,
    pub process_id: Option<i64>,
    pub event_message: Option<Seq<char>>,
    pub message: Option<Seq<char>>,
    pub subsystem: Option<Seq<char>>,
    pub category: Option<Seq<char>>,
}

impl View for StructuredRecord {
    type V = StructuredRecordView;

    open spec fn view(&self) -> StructuredRecordView {
        StructuredRecordView {
            timestamp: text_of(self.timestamp),
            message_type: text_of(self.message_type),
            process_image_path: text_of(self.process_image_path),
            process: text_of(self.process),
            process_id: self.process_id,
            event_message: text_of(self.event_message),
            message: text_of(self.message),
            subsystem: text_of(self.subsystem),
            category: text_of(self.category),
        }
    }
}

/// The record that the members of a JSON object give.
pub open spec fn record_of(members: Map<Seq<char>, JsonScalar>) -> StructuredRecordView {
    StructuredRecordView {
        timestamp: text_at(members, "timestamp"@),
        message_type: text_at(members, "messageType"@),
        process_image_path: text_at(members, "processImagePath"@),
        process: text_at(members, "process"@),
        process_id: integer_at(members, "processID"@),
        event_message: text_at(members, "eventMessage"@),
        message: text_at(members, "message"@),
        subsystem: text_at(members, "subsystem"@),
        category: text_at(members, "category"@),
    }
}

/// The record that `line` gives as a JSON document, or `None` where it is
/// not one.
pub open spec fn decoded_record(line: Seq<char>) -> Option<StructuredRecordView> {
    match json_decoded(line) {
        Some(members) => Some(record_of(members)),
        None => None,
    }
}

/// Decodes `line` as a JSON document and reads the members of a record from
/// it.
pub fn read_structured(line: &str) -> (r: Option<StructuredRecord>)
    ensures
        match r {
            Some(record) => decoded_record(line@) == Some(record@),
            None => decoded_record(line@) is None,
        },
{
    match decode_json(line) {
        Some(v) => Some(
            StructuredRecord {
                timestamp: text_member(&v, "timestamp"),
                message_type: text_member(&v, "messageType"),
                process_image_path: text_member(&v, "processImagePath"),
                process: text_member(&v, "process"),
                process_id: integer_member(&v, "processID"),
                event_message: text_member(&v, "eventMessage"),
                message: text_member(&v, "message"),
                subsystem: text_member(&v, "subsystem"),
                category: text_member(&v, "category"),
            },
        ),
        None => None,
    }
}

/// The value of an optional text, or `fallback` where there is none.
pub open spec fn text_or(value: Option<Seq<char>>, fallback: Seq<char>) -> Seq<char> {
    match value {
        Some(s) => s,
        None => fallback,
    }
}

/// The entry that a structured record stands for.
///
/// The level is classified from `messageType`; where that is missing, from
/// the word `default`. The process name is the last segment of
/// `processImagePath`, else `process`, else `unknown`. The message is
/// `eventMessage`, else `message`, else empty. The process id is cut to 32
/// bits.
pub open spec fn structured_entry(record: StructuredRecordView) -> LogEntryView {
    LogEntryView {
        timestamp: text_or(record.timestamp, Seq::empty()),
        level: level_of(text_or(record.message_type, "default"@)),
        process: match record.process_image_path {
            Some(path) => last_segment(path, '/'),
            None => text_or(record.process, "unknown"@),
        },
        pid: match record.process_id {
            Some(id) => Some(id as i32),
            None => None,
        },
        message: match record.event_message {
            Some(m) => m,
            None => text_or(record.message, Seq::empty()),
        },
        subsystem: record.subsystem,
        category: record.category,
    }
}

fn owned_or(value: Option<String>, fallback: &str) -> (r: String)
    ensures
        r@ == text_or(text_of(value), fallback@),
{
    match value {
        Some(s) => s,
        None => fallback.to_owned(),
    }
}

/// Makes the entry that a structured record stands for.
pub fn entry_from_structured(record: StructuredRecord) -> (e: LogEntry)
    ensures
        e@ == structured_entry(record@),
        e@.well_formed(),
{
    let severity = owned_or(record.message_type, "default");
    let severity_chars = chars_of(severity.as_str());
    let level = classify_level(&severity_chars).to_owned();
    let process = match record.process_image_path {
        Some(path) => {
            let chars = chars_of(path.as_str());
            let start = last_segment_start(&chars, '/');
            string_of_range(&chars, start, chars.len())
        },
        None => owned_or(record.process, "unknown"),
    };
    let pid = match record.process_id {
        Some(id) => Some(#[verifier::truncate] (id as i32)),
        None => None,
    };
    let message = match record.event_message {
        Some(m) => m,
        None => owned_or(record.message, ""),
    };
    proof {
        reveal_strlit("");
        assert(""@ =~= Seq::<char>::empty());
    }
    LogEntry {
        timestamp: owned_or(record.timestamp, ""),
        level,
        process,
        pid,
        message,
        subsystem: record.subsystem,
        category: record.category,
    }
}

} // verus!
