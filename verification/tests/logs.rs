use chatmail_control::logs::{
    classify_log_line, collect_log_lines, journal_identifiers_command, journal_unit_command,
};

#[test]
fn classifies_lines() {
    assert_eq!(classify_log_line("NOQUEUE: REJECT: 554"), "error");
    assert_eq!(classify_log_line("fatal Error here"), "error");
    assert_eq!(classify_log_line("Warning: low disk"), "warn");
    assert_eq!(classify_log_line("connect from x"), "info");
}

#[test]
fn builds_journal_commands() {
    assert_eq!(journal_unit_command("postfix", 200), vec!["journalctl", "-u", "postfix", "-n", "200", "--no-pager"]);
    assert_eq!(
        journal_identifiers_command(&["a", "b"], 5),
        vec!["journalctl", "-t", "a", "-t", "b", "-n", "5", "--no-pager", "--output", "short-iso"]
    );
}

#[test]
fn collects_and_filters_lines() {
    let lines = collect_log_lines(Ok("one ok\nTwo WARN\r\nthree error\n".into()), None);
    let got: Vec<(String, String)> = lines.into_iter().map(|l| (l.level, l.text)).collect();
    assert_eq!(
        got,
        vec![
            ("info".to_string(), "one ok".to_string()),
            ("warn".to_string(), "Two WARN".to_string()),
            ("error".to_string(), "three error".to_string()),
        ]
    );
    let filtered = collect_log_lines(Ok("alpha\nBeta\ngamma".into()), Some("BET"));
    assert_eq!(filtered.len(), 1);
    assert_eq!(filtered[0].text, "Beta");
    let failed = collect_log_lines(Err("journalctl missing".into()), Some("zzz"));
    assert!(failed.is_empty());
    let failed = collect_log_lines(Err("journalctl missing".into()), None);
    assert_eq!(failed[0].level, "error");
    assert_eq!(failed[0].text, "journalctl missing");
}
