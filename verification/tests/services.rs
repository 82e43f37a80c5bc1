use chatmail_control::services::{
    dashboard_stats, mail_queue_size, service_action_command, service_action_result,
    service_status_from,
};
use chatmail_control::shell::CommandOutput;

#[test]
fn counts_queued_mails() {
    assert_eq!(mail_queue_size("Mail queue is empty"), 0);
    assert_eq!(mail_queue_size(""), 0);
    let q = "-Queue ID-  --Size-- ----Arrival Time---- -Sender/Recipient-------\nABC123  1024 Mon Jan  1 sender@x\n\n         rcpt@y\n-- 1 Kbytes in 1 Request.\n";
    assert_eq!(mail_queue_size(q), 3);
}

#[test]
fn service_actions() {
    assert_eq!(service_action_command("postfix", "restart"), vec!["systemctl", "restart", "postfix"]);
    assert_eq!(service_action_command("postfix", "reload"), vec!["systemctl", "reload", "postfix"]);
    assert_eq!(service_action_command("postfix", "stop"), vec!["systemctl", "status", "postfix"]);
    let r = service_action_result("dovecot", "status", CommandOutput { status: 3, stdout: "o".into(), stderr: "e".into() });
    assert_eq!((r.service.as_str(), r.action.as_str(), r.status), ("dovecot", "status", 3));
}

#[test]
fn service_states() {
    let s = service_status_from("postfix", Ok(CommandOutput { status: 0, stdout: "active\n".into(), stderr: String::new() }));
    assert!(s.active);
    let s = service_status_from("postfix", Ok(CommandOutput { status: 3, stdout: String::new(), stderr: "inactive".into() }));
    assert!(!s.active);
    assert_eq!(s.details, "inactive");
    let s = service_status_from("x", Err("boom".into()));
    assert!(!s.active);
    assert_eq!(s.details, "boom");
    let stats = dashboard_stats(vec![], Some("Mail queue is empty".into()), 4, 2);
    assert_eq!((stats.mail_queue_size, stats.users_count, stats.active_bans_count), (0, 4, 2));
}
