use mac_dash::logs::entry::LogEntry;
use mac_dash::logs::level::parse_log_level;
use mac_dash::logs::parser::{make_fallback, parse_compact_line, parse_compact_text, parse_line_at};
use mac_dash::logs::structured::{entry_from_structured, read_structured, StructuredRecord};

fn entry(
    timestamp: &str,
    level: &str,
    process: &str,
    pid: Option<i32>,
    message: &str,
) -> LogEntry {
    LogEntry {
        timestamp: timestamp.to_string(),
        level: level.to_string(),
        process: process.to_string(),
        pid,
        message: message.to_string(),
        subsystem: None,
        category: None,
    }
}

fn empty_record() -> StructuredRecord {
    StructuredRecord {
        timestamp: None,
        message_type: None,
        process_image_path: None,
        process: None,
        process_id: None,
        event_message: None,
        message: None,
        subsystem: None,
        category: None,
    }
}

#[test]
fn structured_line_is_mapped_field_by_field() {
    let line = r#"{"timestamp":"2024-01-01T00:00:00Z","messageType":"Error","eventMessage":"disk full","processImagePath":"/usr/sbin/diskd","processID":412}"#;
    assert_eq!(
        parse_compact_line(line),
        Some(entry("2024-01-01T00:00:00Z", "error", "diskd", Some(412), "disk full"))
    );
}

#[test]
fn structured_line_keeps_subsystem_and_category() {
    let line = r#"{"timestamp":"t","messageType":"Info","message":"m","process":"p","subsystem":"com.example","category":"net"}"#;
    let e = parse_compact_line(line).unwrap();
    assert_eq!(e.level, "info");
    assert_eq!(e.process, "p");
    assert_eq!(e.message, "m");
    assert_eq!(e.pid, None);
    assert_eq!(e.subsystem, Some("com.example".to_string()));
    assert_eq!(e.category, Some("net".to_string()));
}

#[test]
fn structured_line_prefers_image_path_and_event_message() {
    let line = r#"{"processImagePath":"/bin/a","process":"b","eventMessage":"first","message":"second"}"#;
    let e = parse_compact_line(line).unwrap();
    assert_eq!(e.process, "a");
    assert_eq!(e.message, "first");
}

#[test]
fn structured_line_without_members_takes_the_defaults() {
    let e = parse_compact_line("{}").unwrap();
    assert_eq!(e.timestamp, "");
    assert_eq!(e.process, "unknown");
    assert_eq!(e.message, "");
    assert_eq!(e.pid, None);
    assert_eq!(e.subsystem, None);
    assert_eq!(e.category, None);
    // the word "default" holds "fault"
    assert_eq!(e.level, "error");
}

#[test]
fn structured_members_of_another_type_count_as_missing() {
    let line = r#"{"timestamp":5,"process":["x"],"processID":"12","eventMessage":null,"message":"kept"}"#;
    let e = parse_compact_line(line).unwrap();
    assert_eq!(e.timestamp, "");
    assert_eq!(e.process, "unknown");
    assert_eq!(e.pid, None);
    assert_eq!(e.message, "kept");
}

#[test]
fn structured_process_id_is_cut_to_32_bits() {
    let e = parse_compact_line(r#"{"processID":4294967297}"#).unwrap();
    assert_eq!(e.pid, Some(1));
    let e = parse_compact_line(r#"{"processID":-7}"#).unwrap();
    assert_eq!(e.pid, Some(-7));
    let e = parse_compact_line(r#"{"processID":2147483648}"#).unwrap();
    assert_eq!(e.pid, Some(i32::MIN));
    let e = parse_compact_line(r#"{"processID":1.5}"#).unwrap();
    assert_eq!(e.pid, None);
    let e = parse_compact_line(r#"{"processID":18446744073709551615}"#).unwrap();
    assert_eq!(e.pid, None);
}

#[test]
fn structured_image_path_ending_in_a_slash_gives_an_empty_name() {
    let e = parse_compact_line(r#"{"processImagePath":"/usr/bin/"}"#).unwrap();
    assert_eq!(e.process, "");
    let e = parse_compact_line(r#"{"processImagePath":"plain"}"#).unwrap();
    assert_eq!(e.process, "plain");
}

#[test]
fn structured_line_may_end_in_whitespace_but_not_start_with_it() {
    let e = parse_line_at("{\"message\":\"m\"} \r", "now").unwrap();
    assert_eq!(e.message, "m");
    let e = parse_line_at(" {\"message\":\"m\"}", "now").unwrap();
    assert_eq!(e, entry("now", "default", "system", None, "{\"message\":\"m\"}"));
}

#[test]
fn a_json_document_that_is_no_object_has_no_members() {
    // it does not start with a brace, so it is plain text
    let e = parse_line_at("[1,2]", "now").unwrap();
    assert_eq!(e, entry("now", "default", "system", None, "[1,2]"));
}

#[test]
fn read_structured_reads_the_nine_members() {
    let line = r#"{"timestamp":"t","messageType":"mt","processImagePath":"/a/b","process":"p","processID":9,"eventMessage":"em","message":"m","subsystem":"s","category":"c","other":true}"#;
    assert_eq!(
        read_structured(line),
        Some(StructuredRecord {
            timestamp: Some("t".to_string()),
            message_type: Some("mt".to_string()),
            process_image_path: Some("/a/b".to_string()),
            process: Some("p".to_string()),
            process_id: Some(9),
            event_message: Some("em".to_string()),
            message: Some("m".to_string()),
            subsystem: Some("s".to_string()),
            category: Some("c".to_string()),
        })
    );
    assert_eq!(read_structured("{\"a\":"), None);
    assert_eq!(read_structured(""), None);
    assert_eq!(read_structured("17"), Some(empty_record()));
}

#[test]
fn entry_from_structured_on_a_record_written_by_hand() {
    let mut record = empty_record();
    record.message_type = Some("Debug".to_string());
    record.process = Some("launchd".to_string());
    record.process_id = Some(1);
    record.message = Some("hello".to_string());
    assert_eq!(
        entry_from_structured(record),
        entry("", "debug", "launchd", Some(1), "hello")
    );
}

#[test]
fn compact_line_is_cut_at_the_brackets() {
    let line = "2024-01-01 12:00:00.000000+0300 myhost.local kernel[0] <Notice>: disk mounted";
    assert_eq!(
        parse_compact_line(line),
        Some(entry(
            "2024-01-01 12:00:00.000000+0300",
            "default",
            "kernel",
            Some(0),
            "<Notice>: disk mounted"
        ))
    );
}

#[test]
fn compact_line_is_trimmed_first() {
    let line = "  \t2024-01-01 12:00:00 host app[42]   spaced out  \n";
    assert_eq!(
        parse_compact_line(line),
        Some(entry("2024-01-01 12:00:00", "default", "app", Some(42), "spaced out"))
    );
}

#[test]
fn compact_id_that_is_no_integer_is_absent() {
    let e = parse_compact_line("2024-01-01 12:00:00 host app[abc] m").unwrap();
    assert_eq!((e.process.as_str(), e.pid, e.message.as_str()), ("app", None, "m"));
    let e = parse_compact_line("2024-01-01 12:00:00 host app[] m").unwrap();
    assert_eq!(e.pid, None);
    let e = parse_compact_line("2024-01-01 12:00:00 host app[ 7] m").unwrap();
    assert_eq!(e.pid, None);
    let e = parse_compact_line("2024-01-01 12:00:00 host app[+7] m").unwrap();
    assert_eq!(e.pid, Some(7));
    let e = parse_compact_line("2024-01-01 12:00:00 host app[-7] m").unwrap();
    assert_eq!(e.pid, Some(-7));
    let e = parse_compact_line("2024-01-01 12:00:00 host app[0012] m").unwrap();
    assert_eq!(e.pid, Some(12));
    let e = parse_compact_line("2024-01-01 12:00:00 host app[2147483647] m").unwrap();
    assert_eq!(e.pid, Some(i32::MAX));
    let e = parse_compact_line("2024-01-01 12:00:00 host app[2147483648] m").unwrap();
    assert_eq!(e.pid, None);
    let e = parse_compact_line("2024-01-01 12:00:00 host app[-2147483648] m").unwrap();
    assert_eq!(e.pid, Some(i32::MIN));
    let e = parse_compact_line("2024-01-01 12:00:00 host app[-2147483649] m").unwrap();
    assert_eq!(e.pid, None);
    let e = parse_compact_line("2024-01-01 12:00:00 host app[99999999999999999999999] m").unwrap();
    assert_eq!(e.pid, None);
    let e = parse_compact_line("2024-01-01 12:00:00 host app[-] m").unwrap();
    assert_eq!(e.pid, None);
}

#[test]
fn compact_name_may_be_empty_or_hold_spaces() {
    let e = parse_compact_line("2024-01-01 12:00:00 host [5] m").unwrap();
    assert_eq!((e.process.as_str(), e.pid), ("", Some(5)));
    let e = parse_compact_line("2024-01-01 12:00:00 host my app[5] m").unwrap();
    assert_eq!((e.process.as_str(), e.pid), ("my app", Some(5)));
}

#[test]
fn compact_message_may_be_empty() {
    let e = parse_compact_line("2024-01-01 12:00:00 host app[5]").unwrap();
    assert_eq!(e.message, "");
    assert_eq!(e.process, "app");
}

#[test]
fn two_spaces_between_tokens_shift_the_cut() {
    let e = parse_line_at("2024-01-01  12:00:00 host app[5] m", "now").unwrap();
    assert_eq!(e, entry("2024-01-01 ", "default", "host app", Some(5), "m"));
}

#[test]
fn first_token_must_look_like_a_date() {
    let e = parse_line_at("20240101 12:00:00 host app[5] m", "now").unwrap();
    assert_eq!(e.process, "system");
    let e = parse_line_at("2024-1-1 12:00:00 host app[5] m", "now").unwrap();
    assert_eq!(e.process, "system");
    let e = parse_line_at("0123456789 12:00:00 host app[5] m", "now").unwrap();
    assert_eq!(e.process, "system");
    let e = parse_line_at("01234-6789 12:00:00 host app[5] m", "now").unwrap();
    assert_eq!(e.process, "app");
}

#[test]
fn the_length_of_the_first_token_is_counted_in_bytes() {
    // seven characters, eleven bytes
    let e = parse_line_at("\u{e9}-\u{e9}-\u{e9}-\u{e9} t h app[5] m", "now").unwrap();
    assert_eq!(e.process, "app");
    assert_eq!(e.timestamp, "\u{e9}-\u{e9}-\u{e9}-\u{e9} t");
    // nine characters, nine bytes
    let e = parse_line_at("a-b-c-d-e t h app[5] m", "now").unwrap();
    assert_eq!(e.process, "system");
}

#[test]
fn fewer_than_four_tokens_fall_back() {
    let e = parse_line_at("2024-01-01 12:00:00 host[1]", "now").unwrap();
    assert_eq!(e, entry("now", "default", "system", None, "2024-01-01 12:00:00 host[1]"));
}

#[test]
fn missing_brackets_fall_back() {
    let e = parse_line_at("2024-01-01 12:00:00 host app m", "now").unwrap();
    assert_eq!(e.process, "system");
    let e = parse_line_at("2024-01-01 12:00:00 host app[5 m", "now").unwrap();
    assert_eq!(e.process, "system");
    let e = parse_line_at("2024-01-01 12:00:00 host app5] m", "now").unwrap();
    assert_eq!(e.process, "system");
}

#[test]
fn closing_bracket_before_the_opening_one_falls_back() {
    let line = "2024-01-01 12:00:00 host a]b[1] m";
    assert_eq!(
        parse_line_at(line, "now"),
        Some(entry("now", "default", "system", None, line))
    );
}

#[test]
fn brackets_in_the_leading_tokens_do_not_count() {
    let e = parse_line_at("2024-01-01[x] 12:00:00 host app m", "now").unwrap();
    assert_eq!(e.process, "system");
}

#[test]
fn unstructured_text_becomes_a_fallback_entry() {
    let e = parse_line_at("random unstructured text", "2024-05-05T10:00:00+02:00").unwrap();
    assert_eq!(
        e,
        entry("2024-05-05T10:00:00+02:00", "default", "system", None, "random unstructured text")
    );
    let e = parse_compact_line("random unstructured text").unwrap();
    assert_eq!(e.process, "system");
    assert_eq!(e.pid, None);
    assert_eq!(e.level, "default");
    assert_eq!(e.message, "random unstructured text");
    assert!(!e.timestamp.is_empty());
}

#[test]
fn fallback_message_is_the_trimmed_line() {
    let e = parse_line_at("\u{3000} padded\u{a0}\t", "now").unwrap();
    assert_eq!(e.message, "padded");
}

#[test]
fn only_a_blank_line_yields_nothing() {
    assert_eq!(parse_compact_line(""), None);
    assert_eq!(parse_compact_line("   "), None);
    assert_eq!(parse_compact_line("\t\r\n"), None);
    assert_eq!(parse_compact_line("\u{2003}\u{85}"), None);
    assert_eq!(parse_line_at("", "now"), None);
    assert!(parse_compact_line("x").is_some());
    assert!(parse_compact_line("{").is_some());
    assert!(parse_compact_line("\u{200b}").is_some());
}

#[test]
fn undecodable_structured_line_is_read_as_plain_text() {
    let e = parse_line_at("{not json", "now").unwrap();
    assert_eq!(e, entry("now", "default", "system", None, "{not json"));
    let e = parse_line_at("{2024-01-01 12:00:00 host app[7] hi", "now").unwrap();
    assert_eq!(e, entry("{2024-01-01 12:00:00", "default", "app", Some(7), "hi"));
    let e = parse_line_at("{\"a\":1} trailing", "now").unwrap();
    assert_eq!(e.process, "system");
}

#[test]
fn every_entry_has_one_of_the_five_levels() {
    let lines = [
        "{}",
        r#"{"messageType":"Fault"}"#,
        r#"{"messageType":"nonsense"}"#,
        "2024-01-01 12:00:00 host app[5] <Error>: m",
        "free text with error in it",
    ];
    for line in lines {
        let e = parse_compact_line(line).unwrap();
        assert!(matches!(e.level.as_str(), "error" | "warning" | "info" | "debug" | "default"));
    }
    // the classifier is applied to structured lines only
    assert_eq!(parse_compact_line(lines[3]).unwrap().level, "default");
    assert_eq!(parse_compact_line(lines[4]).unwrap().level, "default");
    assert_eq!(parse_compact_line(lines[2]).unwrap().level, "default");
}

#[test]
fn parse_compact_text_reads_a_range() {
    let chars: Vec<char> = "xx2024-01-01 1 h a[1] myy".chars().collect();
    let e = parse_compact_text(&chars, 2, chars.len() - 2).unwrap();
    assert_eq!(e, entry("2024-01-01 1", "default", "a", Some(1), "m"));
    assert_eq!(parse_compact_text(&chars, 0, 5), None);
}

#[test]
fn make_fallback_fills_the_fixed_fields() {
    assert_eq!(
        make_fallback("m".to_string(), "t".to_string()),
        entry("t", "default", "system", None, "m")
    );
}

#[test]
fn level_keywords_are_found_anywhere_and_in_any_case() {
    assert_eq!(parse_log_level("Error"), "error");
    assert_eq!(parse_log_level("a FAULT occurred"), "error");
    assert_eq!(parse_log_level("Warning"), "warning");
    assert_eq!(parse_log_level("WARN"), "warning");
    assert_eq!(parse_log_level("Info"), "info");
    assert_eq!(parse_log_level("<Notice>"), "info");
    assert_eq!(parse_log_level("dEbUg"), "debug");
    assert_eq!(parse_log_level(""), "default");
    assert_eq!(parse_log_level("trace"), "default");
    assert_eq!(parse_log_level("erro"), "default");
}

#[test]
fn level_rules_apply_in_order() {
    assert_eq!(parse_log_level("debug info warn error"), "error");
    assert_eq!(parse_log_level("debug info warn fault"), "error");
    assert_eq!(parse_log_level("debug info warn"), "warning");
    assert_eq!(parse_log_level("debug notice"), "info");
    assert_eq!(parse_log_level("debug info"), "info");
    assert_eq!(parse_log_level("Default"), "error");
}

#[test]
fn level_keywords_match_ascii_letters_only() {
    // U+212A KELVIN SIGN and U+0130 are no ASCII letters
    assert_eq!(parse_log_level("\u{130}nfo"), "default");
    assert_eq!(parse_log_level("\u{212a}"), "default");
    assert_eq!(parse_log_level("\u{130}NFO INFO"), "info");
}
