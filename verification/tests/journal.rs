use rex::journal::{
    classify_event, classify_message, count_failure, detect_suspicious_events, event_label,
    failed_ssh_attempts, field_or, find_login_source, format_extract_line, format_group_line,
    format_report, format_scan_line, format_suspicion, group_entries, report_path, scan_entries,
    EventType, JournalEntry, SuspiciousEvent, Watch, ALARM_THRESHOLD,
};
use rex::tally::{add_line, bump, Count, Group};

fn entry(message: Option<&str>) -> JournalEntry {
    JournalEntry {
        priority: None,
        syslog_identifier: None,
        uid: None,
        pid: None,
        message: message.map(|m| m.to_string()),
        timestamp: None,
        systemd_unit: None,
    }
}

fn full(priority: &str, identifier: &str, pid: &str, message: &str) -> JournalEntry {
    JournalEntry {
        priority: Some(priority.to_string()),
        syslog_identifier: Some(identifier.to_string()),
        uid: None,
        pid: Some(pid.to_string()),
        message: Some(message.to_string()),
        timestamp: None,
        systemd_unit: None,
    }
}

fn with_unit(message: &str, unit: &str) -> JournalEntry {
    let mut e = entry(Some(message));
    e.systemd_unit = Some(unit.to_string());
    e
}

fn counts(table: &[Count]) -> Vec<(String, u32)> {
    table.iter().map(|c| (c.key.clone(), c.count)).collect()
}

fn groups(table: &[Group]) -> Vec<(String, Vec<String>)> {
    table.iter().map(|g| (g.key.clone(), g.lines.clone())).collect()
}

fn describe(event: &SuspiciousEvent) -> String {
    format_suspicion(event)
}

#[test]
fn counters_keep_the_order_of_first_sight() {
    let mut table: Vec<Count> = Vec::new();
    for key in ["b", "a", "b", "c", "b", "a"] {
        bump(&mut table, key.to_string());
    }
    assert_eq!(
        counts(&table),
        vec![("b".to_string(), 3), ("a".to_string(), 2), ("c".to_string(), 1)]
    );
}

#[test]
fn lines_gather_under_their_heading() {
    let mut table: Vec<Group> = Vec::new();
    add_line(&mut table, "x".to_string(), "1".to_string());
    add_line(&mut table, "y".to_string(), "2".to_string());
    add_line(&mut table, "x".to_string(), "3".to_string());
    assert_eq!(
        groups(&table),
        vec![
            ("x".to_string(), vec!["1".to_string(), "3".to_string()]),
            ("y".to_string(), vec!["2".to_string()]),
        ]
    );
}

#[test]
fn messages_are_classified_in_order() {
    assert_eq!(classify_message("failed password for root"), EventType::FailedLogin);
    assert_eq!(classify_message("pam: authentication failure"), EventType::FailedLogin);
    // A failed login wins over a start.
    assert_eq!(classify_message("started; failed password"), EventType::FailedLogin);
    assert_eq!(classify_message("started session 4"), EventType::ServiceRestart);
    assert_eq!(classify_message("unit restarted"), EventType::ServiceRestart);
    assert_eq!(
        classify_message("sudo: pam_unix(sudo:session): session opened for user root"),
        EventType::PrivilegeEscalation
    );
    assert_eq!(classify_message("sudo without a session"), EventType::Unknown);
    assert_eq!(classify_message("session opened"), EventType::Unknown);
    assert_eq!(classify_message(""), EventType::Unknown);
    // The message is taken as it is: upper case does not match.
    assert_eq!(classify_message("Failed Password"), EventType::Unknown);
}

#[test]
fn entries_are_classified_in_lower_case() {
    assert_eq!(classify_event(&entry(Some("Failed Password for admin"))), EventType::FailedLogin);
    assert_eq!(classify_event(&entry(Some("STARTED cron"))), EventType::ServiceRestart);
    assert_eq!(
        classify_event(&entry(Some("SUDO: Session Opened"))),
        EventType::PrivilegeEscalation
    );
    assert_eq!(classify_event(&entry(Some("nothing to see"))), EventType::Unknown);
    assert_eq!(classify_event(&entry(None)), EventType::Unknown);
}

#[test]
fn labels_of_kinds() {
    assert_eq!(event_label(EventType::FailedLogin), "Failed Login");
    assert_eq!(event_label(EventType::ServiceRestart), "Service Restart");
    assert_eq!(event_label(EventType::PrivilegeEscalation), "Privilege Escalation");
    assert_eq!(event_label(EventType::Unknown), "Unknown");
}

#[test]
fn lines_fill_in_missing_fields() {
    let e = full("3", "sshd", "811", "hello");
    assert_eq!(format_extract_line(&e), "[3] sshd (PID: 811) \u{2014} hello");
    assert_eq!(format_group_line(&e), "[3] PID 811: hello");
    assert_eq!(format_scan_line(&e), "[3] sshd (PID: 811): hello");
    let e = entry(None);
    assert_eq!(format_extract_line(&e), "[?] unknown (PID: ?) \u{2014} empty");
    assert_eq!(format_group_line(&e), "[?] PID ?: empty message");
    assert_eq!(format_scan_line(&e), "[?] unknown (PID: ?): empty");
    assert_eq!(field_or(&None, "x"), "x");
    assert_eq!(field_or(&Some("y".to_string()), "x"), "y");
}

#[test]
fn entries_are_grouped_by_identifier() {
    let entries = vec![
        full("6", "cron", "1", "a"),
        full("4", "sshd", "2", "b"),
        entry(Some("c")),
        full("5", "cron", "3", "d"),
    ];
    assert_eq!(
        groups(&group_entries(&entries)),
        vec![
            ("cron".to_string(), vec!["[6] PID 1: a".to_string(), "[5] PID 3: d".to_string()]),
            ("sshd".to_string(), vec!["[4] PID 2: b".to_string()]),
            ("unknown".to_string(), vec!["[?] PID ?: c".to_string()]),
        ]
    );
    assert!(group_entries(&[]).is_empty());
}

#[test]
fn entries_are_grouped_by_kind() {
    let entries = vec![
        full("6", "systemd", "1", "Started Daily Cleanup"),
        full("4", "sshd", "2", "Failed password for root from 10.0.0.1 port 22"),
        full("5", "systemd", "1", "Reached target"),
        full("4", "sshd", "9", "authentication FAILURE"),
    ];
    assert_eq!(
        groups(&scan_entries(&entries)),
        vec![
            (
                "Service Restart".to_string(),
                vec!["[6] systemd (PID: 1): Started Daily Cleanup".to_string()]
            ),
            (
                "Failed Login".to_string(),
                vec![
                    "[4] sshd (PID: 2): Failed password for root from 10.0.0.1 port 22"
                        .to_string(),
                    "[4] sshd (PID: 9): authentication FAILURE".to_string(),
                ]
            ),
            ("Unknown".to_string(), vec!["[5] systemd (PID: 1): Reached target".to_string()]),
        ]
    );
}

#[test]
fn login_source_is_the_address_after_from() {
    assert_eq!(
        find_login_source("Failed password for root from 203.0.113.7 port 4222 ssh2"),
        Some("203.0.113.7".to_string())
    );
    assert_eq!(find_login_source("from 1.2.3.4"), Some("1.2.3.4".to_string()));
    assert_eq!(find_login_source("from 1.2.3"), None);
    assert_eq!(find_login_source("from host.example.org"), None);
    assert_eq!(find_login_source("1.2.3.4"), None);
    // Of a longer run of digits the first three are taken.
    assert_eq!(find_login_source("from 10.20.30.4567"), Some("10.20.30.456".to_string()));
    // The first match in the message wins.
    assert_eq!(
        find_login_source("from 1.1.1.1 and from 2.2.2.2"),
        Some("1.1.1.1".to_string())
    );
}

#[test]
fn failures_are_counted_by_source() {
    let mut table: Vec<Count> = Vec::new();
    count_failure(&mut table, "failed password", Some("1.1.1.1".to_string()));
    count_failure(&mut table, "all good", Some("2.2.2.2".to_string()));
    count_failure(&mut table, "failed again", None);
    count_failure(&mut table, "it failed", Some("1.1.1.1".to_string()));
    assert_eq!(counts(&table), vec![("1.1.1.1".to_string(), 2)]);
}

#[test]
fn failed_logins_of_a_journal() {
    let entries = vec![
        entry(Some("Failed password for root from 10.0.0.1 port 22")),
        entry(Some("Accepted password for root from 10.0.0.2 port 22")),
        entry(None),
        entry(Some("FAILED login from 10.0.0.3")),
        entry(Some("Failed password for bob from 10.0.0.1 port 23")),
        entry(Some("failed without an address")),
    ];
    assert_eq!(
        counts(&failed_ssh_attempts(&entries)),
        vec![("10.0.0.1".to_string(), 2), ("10.0.0.3".to_string(), 1)]
    );
    assert!(failed_ssh_attempts(&[]).is_empty());
}

#[test]
fn tampering_root_activity_and_new_units_are_reported_at_once() {
    let mut by_root = full("5", "backdoor", "66", "Something Happened");
    by_root.uid = Some("0".to_string());
    let mut by_real_root = full("5", "root", "1", "fine");
    by_real_root.uid = Some("0".to_string());
    let mut closing = full("5", "su", "1", "pam: Session Closed for user");
    closing.uid = Some("0".to_string());
    let mut not_zero = full("5", "su", "1", "x");
    not_zero.uid = Some("1000".to_string());
    let entries = vec![
        entry(Some("Journal was Rotated")),
        entry(Some("journal is fine")),
        by_root,
        by_real_root,
        closing,
        not_zero,
        with_unit("hello", "evil.service"),
        with_unit("hello again", "evil.service"),
        with_unit("hello", "sshd.service"),
        with_unit("the journal stopped", "other.service"),
    ];
    let events = detect_suspicious_events(&entries);
    let lines: Vec<String> = events.iter().map(describe).collect();
    assert_eq!(
        lines,
        vec![
            "[Log Tampering] Journal was Rotated",
            "[UID 0 Activity] backdoor ran: Something Happened",
            "[Unknown Service] evil.service",
            "[Log Tampering] the journal stopped",
            "[Unknown Service] other.service",
        ]
    );
}

#[test]
fn alarms_need_more_than_five() {
    assert_eq!(ALARM_THRESHOLD, 5);
    let mut entries = Vec::new();
    for _ in 0..6 {
        entries.push(entry(Some("Failed password for root from 9.9.9.9 port 1")));
    }
    for _ in 0..5 {
        entries.push(entry(Some("failed password for root from 8.8.8.8 port 1")));
    }
    for _ in 0..7 {
        entries.push(with_unit("Started something", "cron.service"));
    }
    for _ in 0..5 {
        entries.push(with_unit("Restarted", "sshd.service"));
    }
    // A start without a unit is not counted.
    entries.push(entry(Some("started")));
    let events = detect_suspicious_events(&entries);
    let lines: Vec<String> = events.iter().map(describe).collect();
    assert_eq!(
        lines,
        vec![
            "[Bruteforce] 9.9.9.9 => 6 attempts",
            "[Frequent Restart] cron.service restarted 7 times",
        ]
    );
    assert!(matches!(
        &events[0],
        SuspiciousEvent::BruteforceLogin { ip, attempts: 6 } if ip == "9.9.9.9"
    ));
}

#[test]
fn nothing_suspicious_gives_an_empty_report() {
    assert!(detect_suspicious_events(&[]).is_empty());
    assert_eq!(format_report(&[]), "");
    let quiet = vec![with_unit("hello", "cron.service"), entry(None)];
    assert!(detect_suspicious_events(&quiet).is_empty());
}

#[test]
fn watch_takes_what_it_is_told() {
    let mut watch = Watch::new();
    assert_eq!(watch.known.len(), 6);
    let e = with_unit("whatever", "new.service");
    // The text in lower case and the source are taken from the caller.
    watch.observe(&e, "failed password", Some("7.7.7.7".to_string()));
    watch.observe(&e, "failed password", None);
    watch.observe(&e, "started", Some("7.7.7.7".to_string()));
    assert_eq!(counts(&watch.bruteforce), vec![("7.7.7.7".to_string(), 1)]);
    assert_eq!(counts(&watch.restarts), vec![("new.service".to_string(), 1)]);
    assert_eq!(watch.known.len(), 7);
    let events = watch.finish();
    assert_eq!(events.len(), 1);
    assert_eq!(describe(&events[0]), "[Unknown Service] new.service");
}

#[test]
fn report_has_one_line_for_each_event() {
    let events = vec![
        SuspiciousEvent::SuspiciousUID0 { uid: "x".to_string(), msg: "m".to_string() },
        SuspiciousEvent::BruteforceLogin { ip: "1.2.3.4".to_string(), attempts: 4294967295 },
        SuspiciousEvent::FrequentRestart { unit: "u".to_string(), count: 6 },
        SuspiciousEvent::LogTampering { msg: "t".to_string() },
        SuspiciousEvent::UnknownService { unit: "s".to_string() },
    ];
    assert_eq!(
        format_report(&events),
        "[UID 0 Activity] x ran: m\n[Bruteforce] 1.2.3.4 => 4294967295 attempts\n\
         [Frequent Restart] u restarted 6 times\n[Log Tampering] t\n[Unknown Service] s\n"
    );
    assert_eq!(report_path("20240131_235959"), "suspicious_events_20240131_235959.log");
}
