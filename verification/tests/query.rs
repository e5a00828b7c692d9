use mac_dash::logs::activity::summarize;
use mac_dash::logs::entry::LogEntry;
use mac_dash::logs::query::{
    parse_lines, query_arguments, query_entries, query_logs, split_lines, stream_arguments,
    CommandOutput, MAX_RESULTS,
};

fn at(process: &str, timestamp: &str) -> LogEntry {
    LogEntry {
        timestamp: timestamp.to_string(),
        level: "default".to_string(),
        process: process.to_string(),
        pid: None,
        message: String::new(),
        subsystem: None,
        category: None,
    }
}

#[test]
fn query_arguments_without_a_predicate() {
    assert_eq!(
        query_arguments(5, None),
        vec!["log", "show", "--last", "5m", "--style", "compact"]
    );
    assert_eq!(query_arguments(0, None)[3], "0m");
    assert_eq!(query_arguments(10, None)[3], "10m");
    assert_eq!(query_arguments(1440, None)[3], "1440m");
    assert_eq!(query_arguments(u32::MAX, None)[3], "4294967295m");
}

#[test]
fn query_arguments_hand_the_predicate_on_as_it_is() {
    let predicate = "process == \"kernel\" AND  messageType == 16 ";
    assert_eq!(
        query_arguments(30, Some(predicate)),
        vec!["log", "show", "--last", "30m", "--style", "compact", "--predicate", predicate]
    );
    assert_eq!(query_arguments(1, Some("")).len(), 8);
    assert_eq!(query_arguments(1, Some(""))[7], "");
}

#[test]
fn stream_arguments_are_fixed() {
    assert_eq!(
        stream_arguments(),
        vec!["log", "stream", "--style", "compact", "--level", "info"]
    );
}

#[test]
fn split_lines_follows_line_feeds() {
    assert_eq!(split_lines(""), Vec::<String>::new());
    assert_eq!(split_lines("a"), vec!["a"]);
    assert_eq!(split_lines("a\n"), vec!["a"]);
    assert_eq!(split_lines("a\nb"), vec!["a", "b"]);
    assert_eq!(split_lines("\n"), vec![""]);
    assert_eq!(split_lines("a\n\nb\n"), vec!["a", "", "b"]);
    assert_eq!(split_lines("a\r\nb\r\n"), vec!["a", "b"]);
    assert_eq!(split_lines("a\r\r\nb"), vec!["a\r", "b"]);
    assert_eq!(split_lines("a\rb\nc\r"), vec!["a\rb", "c\r"]);
    assert_eq!(split_lines("\r\n"), vec![""]);
}

#[test]
fn split_lines_agrees_with_std() {
    for text in ["", "x", "x\n", "\n\n", "a\r\n\r\nb", "\r", "a\n\r", "\u{e9}\n\u{1F600}\r\n"] {
        let expected: Vec<String> = text.lines().map(|l| l.to_string()).collect();
        assert_eq!(split_lines(text), expected);
    }
}

#[test]
fn parse_lines_leaves_blank_lines_out() {
    let lines: Vec<String> = ["2024-01-01 1 h a[1] x", "", "   ", "2024-01-01 2 h b[2] y"]
        .iter()
        .map(|s| s.to_string())
        .collect();
    let entries = parse_lines(&lines);
    assert_eq!(entries.len(), 2);
    assert_eq!(entries[0].process, "a");
    assert_eq!(entries[1].process, "b");
}

#[test]
fn query_entries_reads_every_line() {
    let text = "2024-01-01 10:00:00 h a[1] one\n{\"process\":\"b\",\"message\":\"two\"}\n\nplain\n";
    let entries = query_entries(text);
    assert_eq!(entries.len(), 3);
    assert_eq!(entries[0].message, "one");
    assert_eq!(entries[1].process, "b");
    assert_eq!(entries[2].process, "system");
    assert_eq!(entries[2].message, "plain");
}

#[test]
fn query_keeps_the_most_recent_500_oldest_first() {
    let mut text = String::new();
    for i in 0..620 {
        text.push_str(&format!("2024-01-01 10:00:00 h p[{}] m\n", i));
        if i % 7 == 0 {
            text.push_str("\n");
        }
    }
    let entries = query_entries(&text);
    assert_eq!(MAX_RESULTS, 500);
    assert_eq!(entries.len(), 500);
    for (k, e) in entries.iter().enumerate() {
        assert_eq!(e.pid, Some(120 + k as i32));
    }
}

#[test]
fn query_with_exactly_500_lines_keeps_all() {
    let mut text = String::new();
    for i in 0..500 {
        text.push_str(&format!("2024-01-01 10:00:00 h p[{}] m\r\n", i));
    }
    let entries = query_entries(&text);
    assert_eq!(entries.len(), 500);
    assert_eq!(entries[0].pid, Some(0));
    assert_eq!(entries[499].pid, Some(499));
    assert_eq!(entries[499].message, "m");
}

#[test]
fn query_that_could_not_run_gives_nothing() {
    assert_eq!(query_logs(None), Vec::<LogEntry>::new());
}

#[test]
fn query_that_failed_gives_nothing() {
    let output = CommandOutput {
        success: false,
        stdout: "2024-01-01 10:00:00 h p[1] m\n".to_string(),
    };
    assert_eq!(query_logs(Some(output)), Vec::<LogEntry>::new());
}

#[test]
fn query_that_succeeded_gives_its_entries() {
    let output = CommandOutput {
        success: true,
        stdout: "2024-01-01 10:00:00 h p[1] m\n2024-01-01 10:00:01 h q[2] n".to_string(),
    };
    let entries = query_logs(Some(output));
    assert_eq!(entries.len(), 2);
    assert_eq!(entries[0].process, "p");
    assert_eq!(entries[1].process, "q");
    let output = CommandOutput { success: true, stdout: String::new() };
    assert!(query_logs(Some(output)).is_empty());
}

#[test]
fn summarize_orders_by_count() {
    let entries = vec![
        at("x", "3"),
        at("y", "1"),
        at("y", "2"),
        at("z", "9"),
        at("z", "8"),
        at("z", "10"),
    ];
    assert_eq!(
        summarize(&entries),
        vec![
            ("z".to_string(), 3, "9".to_string()),
            ("y".to_string(), 2, "2".to_string()),
            ("x".to_string(), 1, "3".to_string()),
        ]
    );
}

#[test]
fn summarize_compares_timestamps_as_strings() {
    let entries = vec![at("p", "9:00"), at("p", "10:00"), at("p", "")];
    assert_eq!(summarize(&entries), vec![("p".to_string(), 3, "9:00".to_string())]);
    let entries = vec![at("p", "ab"), at("p", "abc"), at("p", "a\u{e9}"), at("p", "aB")];
    assert_eq!(summarize(&entries), vec![("p".to_string(), 4, "a\u{e9}".to_string())]);
    let entries = vec![at("p", ""), at("p", "")];
    assert_eq!(summarize(&entries), vec![("p".to_string(), 2, String::new())]);
}

#[test]
fn summarize_has_one_row_for_each_process() {
    let entries: Vec<LogEntry> =
        (0..100).map(|i| at(&format!("p{}", i % 10), &format!("{:03}", i))).collect();
    let summary = summarize(&entries);
    assert_eq!(summary.len(), 10);
    for row in &summary {
        assert_eq!(row.1, 10);
        let n: usize = row.0[1..].parse().unwrap();
        assert_eq!(row.2, format!("{:03}", 90 + n));
    }
    let mut names: Vec<&str> = summary.iter().map(|r| r.0.as_str()).collect();
    names.sort();
    names.dedup();
    assert_eq!(names.len(), 10);
    assert!(summarize(&Vec::new()).is_empty());
}

#[test]
fn summarize_treats_the_empty_name_as_a_name() {
    let entries = vec![at("", "1"), at("a", "2"), at("", "3")];
    assert_eq!(
        summarize(&entries),
        vec![(String::new(), 2, "3".to_string()), ("a".to_string(), 1, "2".to_string())]
    );
}
