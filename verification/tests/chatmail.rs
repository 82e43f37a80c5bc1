use chatmail_control::chatmail::{
    bans_reload_commands, log_source_by_name, log_sources, password_hash_command,
    postfix_reload_command, postfix_set_param_command, postfix_show_param_command,
    settings_reload_commands, systemctl_command, user_auth_test_command,
    user_delete_mailbox_command, user_force_resync_command, user_home_command,
    user_kick_command, user_mailbox_expunge_command, user_mailbox_list_command,
    user_message_count_command, user_metadata_command, user_quota_recalc_command,
    user_size_command, users_list_command, COMMAND_TIMEOUT_SECONDS,
};

#[test]
fn builds_doveadm_commands() {
    assert_eq!(users_list_command(), vec!["doveadm", "user", "*"]);
    assert_eq!(user_size_command("a@x"), vec!["doveadm", "quota", "get", "-u", "a@x"]);
    assert_eq!(user_message_count_command("a@x"), vec!["doveadm", "mailbox", "status", "-u", "a@x", "messages", "INBOX"]);
    assert_eq!(user_metadata_command("a@x"), vec!["doveadm", "user", "-u", "a@x", "*"]);
    assert_eq!(user_delete_mailbox_command("a@x"), vec!["doveadm", "mailbox", "delete", "-u", "a@x", "-s", "INBOX"]);
    assert_eq!(user_kick_command("a@x"), vec!["doveadm", "kick", "-u", "a@x"]);
    assert_eq!(user_home_command("a@x"), vec!["doveadm", "user", "-u", "a@x", "-f", "home"]);
    assert_eq!(user_auth_test_command("a@x", "pw"), vec!["doveadm", "auth", "test", "-x", "service=imap", "a@x", "pw"]);
    assert_eq!(user_mailbox_list_command("a@x"), vec!["doveadm", "mailbox", "list", "-u", "a@x"]);
    assert_eq!(user_mailbox_expunge_command("a@x", "Trash"), vec!["doveadm", "expunge", "-u", "a@x", "mailbox", "Trash", "all"]);
    assert_eq!(user_quota_recalc_command("a@x"), vec!["doveadm", "quota", "recalc", "-u", "a@x"]);
    assert_eq!(user_force_resync_command("a@x"), vec!["doveadm", "force-resync", "-u", "a@x", "*"]);
    assert_eq!(password_hash_command("pw"), vec!["doveadm", "pw", "-s", "SHA512-CRYPT", "-p", "pw"]);
}

#[test]
fn builds_service_commands() {
    assert_eq!(bans_reload_commands(), vec![vec!["systemctl", "reload", "postfix"], vec!["systemctl", "reload", "dovecot"]]);
    assert_eq!(settings_reload_commands(), vec![vec!["systemctl", "reload", "doveauth"]]);
    assert_eq!(systemctl_command("restart", "dovecot"), vec!["systemctl", "restart", "dovecot"]);
    assert_eq!(postfix_show_param_command("myhostname"), vec!["postconf", "-h", "myhostname"]);
    assert_eq!(postfix_set_param_command("a", "b, c"), vec!["postconf", "-e", "a = b, c"]);
    assert_eq!(postfix_reload_command(), vec!["systemctl", "reload", "postfix"]);
    assert_eq!(COMMAND_TIMEOUT_SECONDS, 10);
}

#[test]
fn picks_log_sources() {
    assert_eq!(log_source_by_name(Some("postfix")).unit, "postfix");
    assert_eq!(log_source_by_name(Some("lastlogin")).name, "lastlogin");
    assert_eq!(log_source_by_name(Some("nginx")).name, "dovecot");
    assert_eq!(log_source_by_name(None).unit, "dovecot");
    let names: Vec<&str> = log_sources().iter().map(|s| s.name).collect();
    assert_eq!(names, vec!["dovecot", "postfix", "doveauth", "chatmail-metadata", "chatmail-expire", "lastlogin"]);
}
