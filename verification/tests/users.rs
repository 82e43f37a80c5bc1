use chatmail_control::shell::CommandOutput;
use chatmail_control::users::{
    find_last_seen, is_blocked, last_seen_from, listed_addresses, optional_output, parse_addresses,
    user_mailbox,
};

fn out(status: i32, stdout: &str) -> CommandOutput {
    CommandOutput { status, stdout: stdout.into(), stderr: String::new() }
}

#[test]
fn parses_sorted_unique_addresses() {
    let stdout = "zed@example.org\nuser: bob@example.com extra\nnot an address\nbob@example.com\nalice@b.io\n";
    assert_eq!(parse_addresses(stdout), vec!["alice@b.io", "bob@example.com", "zed@example.org"]);
    assert!(parse_addresses("").is_empty());
    assert_eq!(parse_addresses("x a@b.c"), Vec::<String>::new());
}

#[test]
fn lists_addresses_only_on_success() {
    assert_eq!(listed_addresses(Ok(out(0, "a@x.org"))), vec!["a@x.org"]);
    assert!(listed_addresses(Ok(out(1, "a@x.org"))).is_empty());
    assert!(listed_addresses(Err("no doveadm".into())).is_empty());
}

#[test]
fn finds_last_seen() {
    assert_eq!(find_last_seen("home /x\n  LAST_LOGIN=123  \nlast=2"), Some("LAST_LOGIN=123".to_string()));
    assert_eq!(find_last_seen("home /x"), None);
    assert_eq!(last_seen_from(&Some("uid 5".into())), Some("unknown".to_string()));
    assert_eq!(last_seen_from(&None), None);
}

#[test]
fn builds_mailbox_rows() {
    assert_eq!(optional_output(Ok(out(0, "12M"))), Some("12M".to_string()));
    assert_eq!(optional_output(Ok(out(0, ""))), None);
    assert_eq!(optional_output(Ok(out(2, "x"))), None);
    assert_eq!(optional_output(Err("e".into())), None);
    let blocked = vec!["a@x.org".to_string()];
    assert!(is_blocked(&"a@x.org".to_string(), &blocked));
    assert!(!is_blocked(&"b@x.org".to_string(), &blocked));
    let row = user_mailbox(
        "a@x.org".into(),
        Ok(out(0, "5M")),
        Err("timeout".into()),
        Ok(out(0, "lastlogin 99")),
        &blocked,
    );
    assert!(row.blocked);
    assert_eq!(row.mailbox_size.as_deref(), Some("5M"));
    assert_eq!(row.message_count, None);
    assert_eq!(row.last_seen.as_deref(), Some("lastlogin 99"));
    assert_eq!(row.metadata.as_deref(), Some("lastlogin 99"));
}
