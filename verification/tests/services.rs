use mac_dash::processes::{format_elapsed, kill_outcome, kill_process};
use mac_dash::services::{
    categorize_path, disable_service, enable_service, enabled_path, get_service_detail,
    gui_target, list_command, list_services, lookup_loaded, manage_service,
    parse_loaded_services, path_is_disabled, plist_label, print_command, service_not_found,
    service_status, start_service, start_service_result, stop_service, system_target,
    LoadedService, PlistFile, ServiceAction, ServiceDetail, ServiceInfo,
};
use mac_dash::system_info::{format_uptime, get_hardware_info, HardwareInfo};
use mac_dash::text::{same_text, split_words, str_holds, str_starts_with, suffixes_start};

fn chars(s: &str) -> Vec<char> {
    s.chars().collect()
}

fn loaded(pid: Option<i32>, exit_status: Option<i32>) -> LoadedService {
    LoadedService { pid, exit_status }
}

fn plist(label: &str, path: &str, category: &str) -> PlistFile {
    PlistFile {
        label: label.to_string(),
        path: path.to_string(),
        category: category.to_string(),
        program: None,
        program_arguments: None,
        run_at_load: None,
    }
}

#[test]
fn elapsed_time_has_two_digit_fields() {
    assert_eq!(format_elapsed(0), "00:00");
    assert_eq!(format_elapsed(5), "00:05");
    assert_eq!(format_elapsed(65), "01:05");
    assert_eq!(format_elapsed(3599), "59:59");
    assert_eq!(format_elapsed(3600), "01:00:00");
    assert_eq!(format_elapsed(3661), "01:01:01");
    assert_eq!(format_elapsed(36000), "10:00:00");
    assert_eq!(format_elapsed(360000), "100:00:00");
    assert_eq!(format_elapsed(u64::MAX), "5124095576030431:00:15");
}

#[test]
fn uptime_leaves_out_leading_zero_units() {
    assert_eq!(format_uptime(0), "0m");
    assert_eq!(format_uptime(59), "0m");
    assert_eq!(format_uptime(60), "1m");
    assert_eq!(format_uptime(3599), "59m");
    assert_eq!(format_uptime(3600), "1h 0m");
    assert_eq!(format_uptime(3660), "1h 1m");
    assert_eq!(format_uptime(86399), "23h 59m");
    assert_eq!(format_uptime(86400), "1d 0h 0m");
    assert_eq!(format_uptime(90061), "1d 1h 1m");
    assert_eq!(format_uptime(u64::MAX), "213503982334601d 7h 0m");
}

#[test]
fn kill_command_names_the_signal() {
    assert_eq!(kill_process(123, false), vec!["kill", "-15", "123"]);
    assert_eq!(kill_process(1, true), vec!["kill", "-9", "1"]);
    assert_eq!(kill_process(0, true)[2], "0");
    assert_eq!(kill_process(u32::MAX, false)[2], "4294967295");
}

#[test]
fn kill_outcome_reports_the_trimmed_error() {
    assert_eq!(kill_outcome(true, "ignored"), Ok(()));
    assert_eq!(
        kill_outcome(false, "  kill: (1): Operation not permitted\n"),
        Err("kill: (1): Operation not permitted".to_string())
    );
    assert_eq!(kill_outcome(false, ""), Err(String::new()));
}

#[test]
fn hardware_model_follows_the_processor_name() {
    let info = get_hardware_info(
        "Apple M2 Pro".to_string(),
        12,
        34359738368,
        Some("14.4".to_string()),
        Some("studio".to_string()),
    );
    assert_eq!(
        info,
        HardwareInfo {
            model: "Apple Silicon Mac".to_string(),
            cpu: "Apple M2 Pro".to_string(),
            cores: 12,
            memory: 34359738368,
            os_version: "14.4".to_string(),
            hostname: "studio".to_string(),
            serial_number: None,
        }
    );
    let info = get_hardware_info("Intel(R) Core(TM) i9".to_string(), 8, 1, None, None);
    assert_eq!(info.model, "Intel Mac");
    assert_eq!(info.os_version, "unknown");
    assert_eq!(info.hostname, "localhost");
    assert_eq!(get_hardware_info(String::new(), 0, 0, None, None).model, "Intel Mac");
    assert_eq!(get_hardware_info("apple".to_string(), 0, 0, None, None).model, "Intel Mac");
    assert_eq!(get_hardware_info("xApple".to_string(), 0, 0, None, None).model, "Apple Silicon Mac");
}

#[test]
fn category_follows_the_directory() {
    assert_eq!(categorize_path("/System/Library/LaunchAgents/a.plist"), "system-agents");
    assert_eq!(categorize_path("/Library/LaunchAgents/a.plist"), "global-agents");
    assert_eq!(categorize_path("/Users/me/Library/LaunchAgents/a.plist"), "user-agents");
    assert_eq!(categorize_path("/System/Library/LaunchDaemons/a.plist"), "system-daemons");
    assert_eq!(categorize_path("/Library/LaunchDaemons/a.plist"), "global-daemons");
    assert_eq!(categorize_path("/Users/me/Library/LaunchDaemons/a.plist"), "global-daemons");
    assert_eq!(categorize_path("/tmp/a.plist"), "user-agents");
    assert_eq!(categorize_path(""), "user-agents");
    assert_eq!(
        categorize_path("/Systemic/Library/LaunchDaemons/Library/LaunchAgents"),
        "system-agents"
    );
}

#[test]
fn status_follows_pid_then_exit_status() {
    assert_eq!(service_status(None), "stopped");
    assert_eq!(service_status(Some(loaded(None, None))), "stopped");
    assert_eq!(service_status(Some(loaded(Some(12), None))), "running");
    assert_eq!(service_status(Some(loaded(Some(12), Some(1)))), "running");
    assert_eq!(service_status(Some(loaded(Some(0), Some(0)))), "stopped");
    assert_eq!(service_status(Some(loaded(Some(0), Some(78)))), "error");
    assert_eq!(service_status(Some(loaded(Some(-1), Some(-9)))), "error");
    assert_eq!(service_status(Some(loaded(None, Some(0)))), "stopped");
}

#[test]
fn plist_label_takes_the_endings_off() {
    assert_eq!(plist_label("com.example.agent.plist"), Some("com.example.agent".to_string()));
    assert_eq!(
        plist_label("com.example.agent.plist.disabled"),
        Some("com.example.agent".to_string())
    );
    assert_eq!(plist_label("a.plist.plist"), Some("a".to_string()));
    assert_eq!(plist_label("a.plist.disabled.disabled"), None);
    assert_eq!(plist_label("a.disabled.plist.disabled"), Some("a.disabled".to_string()));
    assert_eq!(plist_label(".plist"), Some(String::new()));
    assert_eq!(plist_label("a.plistx"), None);
    assert_eq!(plist_label("a.disabled"), None);
    assert_eq!(plist_label("plist"), None);
    assert_eq!(plist_label(""), None);
}

#[test]
fn plist_label_agrees_with_std() {
    for name in ["x.plist", "x.plist.disabled", ".plist.plist.disabled", "a.b.plist", "\u{e9}.plist"] {
        let expected = name.trim_end_matches(".disabled").trim_end_matches(".plist").to_string();
        assert_eq!(plist_label(name), Some(expected));
    }
}

#[test]
fn enabled_path_drops_the_disabled_endings() {
    assert_eq!(enabled_path("/a/b.plist.disabled"), ("/a/b.plist".to_string(), true));
    assert_eq!(enabled_path("/a/b.plist"), ("/a/b.plist".to_string(), false));
    assert_eq!(enabled_path("/a/b.disabled.disabled"), ("/a/b".to_string(), true));
    assert_eq!(enabled_path(""), (String::new(), false));
    assert!(path_is_disabled("x.disabled"));
    assert!(!path_is_disabled("x.disabled "));
}

#[test]
fn targets_name_the_domain() {
    assert_eq!(gui_target(501, "com.example.agent"), "gui/501/com.example.agent");
    assert_eq!(gui_target(0, ""), "gui/0/");
    assert_eq!(system_target("com.example.daemon"), "system/com.example.daemon");
}

#[test]
fn commands_for_the_service_manager() {
    assert_eq!(list_command(), vec!["launchctl", "list"]);
    assert_eq!(print_command("gui/501/x"), vec!["launchctl", "print", "gui/501/x"]);
    assert_eq!(start_service("system/x"), vec!["launchctl", "kickstart", "system/x"]);
    assert_eq!(stop_service(501, "x"), vec!["launchctl", "kill", "SIGTERM", "gui/501/x"]);
    assert_eq!(
        enable_service("/a/x.plist.disabled"),
        (
            vec!["launchctl".to_string(), "load".to_string(), "-w".to_string(), "/a/x.plist".to_string()],
            true
        )
    );
    assert_eq!(enable_service("/a/x.plist").1, false);
    assert_eq!(
        disable_service("x", Some("/a/x.plist")),
        vec!["launchctl", "unload", "-w", "/a/x.plist"]
    );
    assert_eq!(disable_service("x", None), vec!["launchctl", "remove", "x"]);
}

#[test]
fn unknown_service_is_recognized_in_the_answer() {
    assert!(service_not_found("Could not find service \"x\" in domain for port"));
    assert!(!service_not_found("could not find service"));
    assert!(!service_not_found(""));
    assert_eq!(start_service_result(""), Ok(()));
    assert_eq!(
        start_service_result("xx Could not find service"),
        Err("Service not found".to_string())
    );
}

#[test]
fn loaded_services_are_read_line_by_line() {
    let output = "PID\tStatus\tLabel\n-\t0\tcom.apple.a\n312\t0\tcom.example.b\n-\t78\tcom.example.c\n";
    assert_eq!(
        parse_loaded_services(output),
        vec![
            ("com.apple.a".to_string(), loaded(None, Some(0))),
            ("com.example.b".to_string(), loaded(Some(312), Some(0))),
            ("com.example.c".to_string(), loaded(None, Some(78))),
        ]
    );
}

#[test]
fn loaded_services_skip_the_heading_and_short_lines() {
    assert_eq!(parse_loaded_services(""), vec![]);
    assert_eq!(parse_loaded_services("  \n "), vec![]);
    assert_eq!(parse_loaded_services("1 0 heading.only"), vec![]);
    assert_eq!(
        parse_loaded_services("\n\nh\n1 0\n\n 2   -9   a  b\tc \nx y z"),
        vec![
            ("a b c".to_string(), loaded(Some(2), Some(-9))),
            ("z".to_string(), loaded(None, None)),
        ]
    );
}

#[test]
fn later_line_replaces_an_earlier_one_for_the_same_label() {
    let table = parse_loaded_services("h\n1 0 a\n2 0 b\n3 1 a\n");
    assert_eq!(
        table,
        vec![("a".to_string(), loaded(Some(3), Some(1))), ("b".to_string(), loaded(Some(2), Some(0)))]
    );
    assert_eq!(lookup_loaded(&table, "a"), Some(loaded(Some(3), Some(1))));
    assert_eq!(lookup_loaded(&table, "b"), Some(loaded(Some(2), Some(0))));
    assert_eq!(lookup_loaded(&table, "c"), None);
    assert_eq!(lookup_loaded(&Vec::new(), "a"), None);
}

#[test]
fn service_detail_reads_the_known_fields() {
    let answer = "gui/501/x = {\n\tpath = /a/x.plist\n\ttype = LaunchAgent\n\tstate = running\n\tbundle id = com.x\n\tlast exit reason = 0\n\tpath = /b/x.plist\n\tother = y\n}\n";
    assert_eq!(
        get_service_detail(answer),
        Some(ServiceDetail {
            path: Some("/b/x.plist".to_string()),
            kind: Some("LaunchAgent".to_string()),
            bundle_id: Some("com.x".to_string()),
            state: Some("running".to_string()),
            environment: vec![],
            last_exit_reason: Some("0".to_string()),
        })
    );
}

#[test]
fn service_detail_of_an_empty_answer_is_none() {
    assert_eq!(get_service_detail(""), None);
    assert_eq!(get_service_detail(" \n\t"), None);
    let d = get_service_detail("x").unwrap();
    assert_eq!(
        d,
        ServiceDetail {
            path: None,
            kind: None,
            bundle_id: None,
            state: None,
            environment: vec![],
            last_exit_reason: None,
        }
    );
    let d = get_service_detail("  state = \r\n path =x\n type  = y").unwrap();
    assert_eq!(d.state, None);
    assert_eq!(d.path, None);
    assert_eq!(d.kind, None);
    let d = get_service_detail("  state = a = b  \n").unwrap();
    assert_eq!(d.state, Some("a = b".to_string()));
}

#[test]
fn services_are_merged_and_sorted_by_label() {
    let table = vec![
        ("com.example.b".to_string(), loaded(Some(312), Some(0))),
        ("com.apple.z".to_string(), loaded(None, Some(78))),
        ("other".to_string(), loaded(None, None)),
    ];
    let mut first = plist("com.example.b", "/Library/LaunchAgents/com.example.b.plist", "global-agents");
    first.program_arguments = Some(vec!["/bin/b".to_string(), "-x".to_string()]);
    first.run_at_load = Some(true);
    let mut second = plist("com.example.a", "/Library/LaunchDaemons/com.example.a.plist.disabled", "global-daemons");
    second.program = Some("/bin/a".to_string());
    second.program_arguments = Some(vec!["/bin/other".to_string()]);
    let services = list_services(&table, &vec![first, second]);
    let labels: Vec<&str> = services.iter().map(|s| s.label.as_str()).collect();
    assert_eq!(labels, vec!["com.apple.z", "com.example.a", "com.example.b", "other"]);
    assert_eq!(
        services[0],
        ServiceInfo {
            label: "com.apple.z".to_string(),
            pid: None,
            last_exit_status: Some(78),
            status: "error".to_string(),
            category: "system-agents".to_string(),
            plist_path: None,
            program: None,
            program_arguments: None,
            run_at_load: None,
            enabled: true,
        }
    );
    assert_eq!(
        services[1],
        ServiceInfo {
            label: "com.example.a".to_string(),
            pid: None,
            last_exit_status: None,
            status: "stopped".to_string(),
            category: "global-daemons".to_string(),
            plist_path: Some("/Library/LaunchDaemons/com.example.a.plist.disabled".to_string()),
            program: Some("/bin/a".to_string()),
            program_arguments: Some(vec!["/bin/other".to_string()]),
            run_at_load: None,
            enabled: false,
        }
    );
    assert_eq!(
        services[2],
        ServiceInfo {
            label: "com.example.b".to_string(),
            pid: Some(312),
            last_exit_status: Some(0),
            status: "running".to_string(),
            category: "global-agents".to_string(),
            plist_path: Some("/Library/LaunchAgents/com.example.b.plist".to_string()),
            program: Some("/bin/b".to_string()),
            program_arguments: Some(vec!["/bin/b".to_string(), "-x".to_string()]),
            run_at_load: Some(true),
            enabled: true,
        }
    );
    assert_eq!(services[3].category, "user-agents");
    assert_eq!(services[3].status, "stopped");
}

#[test]
fn a_loaded_but_disabled_plist_is_not_enabled() {
    let table = vec![("a".to_string(), loaded(Some(1), None))];
    let services = list_services(&table, &vec![plist("a", "/x/a.plist.disabled", "user-agents")]);
    assert_eq!(services.len(), 1);
    assert!(!services[0].enabled);
    assert_eq!(services[0].status, "running");
    let services = list_services(&table, &vec![plist("a", "/x/a.plist", "user-agents")]);
    assert!(services[0].enabled);
    let services = list_services(&Vec::new(), &vec![plist("a", "/x/a.plist", "user-agents")]);
    assert!(!services[0].enabled);
}

#[test]
fn plists_of_one_label_keep_their_order() {
    let files = vec![
        plist("b", "/1/b.plist", "user-agents"),
        plist("a", "/2/a.plist", "global-agents"),
        plist("b", "/3/b.plist", "system-agents"),
        plist("a", "/4/a.plist", "system-daemons"),
        plist("B", "/5/B.plist", "user-agents"),
    ];
    let services = list_services(&vec![("b".to_string(), loaded(None, None))], &files);
    let paths: Vec<&str> = services.iter().map(|s| s.plist_path.as_deref().unwrap()).collect();
    assert_eq!(paths, vec!["/5/B.plist", "/2/a.plist", "/4/a.plist", "/1/b.plist", "/3/b.plist"]);
}

#[test]
fn list_of_nothing_is_empty() {
    assert!(list_services(&Vec::new(), &Vec::new()).is_empty());
}

#[test]
fn list_agrees_with_a_stable_sort() {
    let table: Vec<(String, LoadedService)> = (0..40)
        .map(|i| (format!("svc.{}", (i * 7) % 40), loaded(Some(i), None)))
        .collect();
    let files: Vec<PlistFile> = (0..30)
        .map(|i| plist(&format!("svc.{}", (i * 11) % 25), &format!("/p/{}", i), "user-agents"))
        .collect();
    let services = list_services(&table, &files);
    let mut expected: Vec<(String, Option<String>)> =
        files.iter().map(|f| (f.label.clone(), Some(f.path.clone()))).collect();
    for (label, _) in &table {
        if !files.iter().any(|f| &f.label == label) {
            expected.push((label.clone(), None));
        }
    }
    expected.sort_by(|a, b| a.0.cmp(&b.0));
    let got: Vec<(String, Option<String>)> =
        services.iter().map(|s| (s.label.clone(), s.plist_path.clone())).collect();
    assert_eq!(got, expected);
}

#[test]
fn substring_helpers_agree_with_std() {
    let samples = ["", "a", "abc", "abcabc", "xxabc", "ab", "aab", "/Library/LaunchAgents"];
    let words = ["", "a", "abc", "bc", "c", "abcabcabc", "/Library"];
    for s in samples {
        for w in words {
            let v = chars(s);
            assert_eq!(str_holds(&v, w), s.contains(w), "{:?} {:?}", s, w);
            assert_eq!(str_starts_with(&v, w), s.starts_with(w), "{:?} {:?}", s, w);
            let k = suffixes_start(&v, v.len(), w);
            if !w.is_empty() {
                assert_eq!(k, s.trim_end_matches(w).chars().count(), "{:?} {:?}", s, w);
            } else {
                assert_eq!(k, v.len());
            }
            assert_eq!(same_text(s, w), s == w);
        }
    }
}

#[test]
fn split_words_agrees_with_std() {
    for s in ["", " ", "a", " a ", "a b", "a\t\tb\u{3000}c", "  leading", "trailing \n", "-\t0\tcom.apple.x"] {
        let v = chars(s);
        let bounds = split_words(&v, 0, v.len());
        let got: Vec<String> = bounds.iter().map(|b| v[b.0..b.1].iter().collect()).collect();
        let expected: Vec<String> = s.split_whitespace().map(|w| w.to_string()).collect();
        assert_eq!(got, expected, "{:?}", s);
    }
}

#[test]
fn requests_are_read_by_name() {
    assert_eq!(manage_service("start", None), Ok(ServiceAction::Start));
    assert_eq!(manage_service("start", Some("/p")), Ok(ServiceAction::Start));
    assert_eq!(manage_service("stop", None), Ok(ServiceAction::Stop));
    assert_eq!(manage_service("disable", None), Ok(ServiceAction::Disable));
    assert_eq!(manage_service("disable", Some("/p")), Ok(ServiceAction::Disable));
    assert_eq!(manage_service("enable", Some("/p")), Ok(ServiceAction::Enable("/p".to_string())));
    assert_eq!(
        manage_service("enable", None),
        Err("plistPath required for enable".to_string())
    );
    assert_eq!(manage_service("restart", None), Err("Unknown action: restart".to_string()));
    assert_eq!(manage_service("Start", None), Err("Unknown action: Start".to_string()));
    assert_eq!(manage_service("", Some("/p")), Err("Unknown action: ".to_string()));
}
