use chatmail_control::error::AppError;
use chatmail_control::shell::{
    needs_privileged_wrapper, prepare_command, substitute_template_args, summarize_reload_results,
    with_privileged_wrapper, CommandOutput, Shell,
};

#[test]
fn substitutes_address_placeholder() {
    let argv: Vec<String> = vec!["quota".into(), "{address}".into(), "x".into()];
    let got = substitute_template_args(&argv, &[("{address}", "user@example.com")]).unwrap();
    assert_eq!(got, vec!["quota", "user@example.com", "x"]);
}

#[test]
fn wraps_only_privileged_commands() {
    assert!(needs_privileged_wrapper("doveadm"));
    assert!(needs_privileged_wrapper("journalctl"));
    assert!(!needs_privileged_wrapper("cat"));
}

#[test]
fn privileged_set_is_exact() {
    assert!(needs_privileged_wrapper("systemctl"));
    assert!(needs_privileged_wrapper("postconf"));
    assert!(!needs_privileged_wrapper("doveadm "));
    assert!(!needs_privileged_wrapper("sudo"));
    assert!(!needs_privileged_wrapper(""));
}

#[test]
fn unresolved_placeholder_is_refused() {
    let argv: Vec<String> = vec!["quota".into(), "{address}".into(), "{other}".into()];
    match substitute_template_args(&argv, &[("{address}", "a@b.c")]) {
        Err(AppError::Validation(m)) => {
            assert_eq!(m, "unresolved placeholder in command argument: {other}")
        }
        other => panic!("unexpected {:?}", other),
    }
}

#[test]
fn replaces_every_occurrence_in_order() {
    let argv: Vec<String> = vec!["{a}-{a}".into(), "{b}".into()];
    let got = substitute_template_args(&argv, &[("{a}", "{b}"), ("{b}", "z")]).unwrap();
    assert_eq!(got, vec!["z-z", "z"]);
}

#[test]
fn empty_pattern_inserts_between_characters() {
    let argv: Vec<String> = vec!["ab".into()];
    let got = substitute_template_args(&argv, &[("", "x")]).unwrap();
    assert_eq!(got, vec!["xaxbx"]);
}

#[test]
fn wraps_with_sudo_when_not_root() {
    let (p, a) = with_privileged_wrapper(false, "doveadm", vec!["user".into(), "*".into()]);
    assert_eq!(p, "sudo");
    assert_eq!(a, vec!["-n", "doveadm", "user", "*"]);
    let (p, a) = with_privileged_wrapper(true, "doveadm", vec!["user".into()]);
    assert_eq!(p, "doveadm");
    assert_eq!(a, vec!["user"]);
    let (p, a) = with_privileged_wrapper(false, "df", vec!["-h".into()]);
    assert_eq!(p, "df");
    assert_eq!(a, vec!["-h"]);
}

#[test]
fn prepares_commands() {
    let argv: Vec<String> = vec!["doveadm".into(), "quota".into(), "get".into(), "-u".into(), "{address}".into()];
    let (p, a) = prepare_command(&argv, &[("{address}", "u@x.org")], false).unwrap();
    assert_eq!(p, "sudo");
    assert_eq!(a, vec!["-n", "doveadm", "quota", "get", "-u", "u@x.org"]);
    match prepare_command(&[], &[], false) {
        Err(AppError::Validation(m)) => assert_eq!(m, "command argv is empty"),
        other => panic!("unexpected {:?}", other),
    }
    assert!(prepare_command(&argv, &[], true).is_err());
    let braced: Vec<String> = vec!["doveadm".into(), "{a}".into(), "{b}".into()];
    match prepare_command(&braced, &[], false) {
        Err(AppError::Validation(m)) => {
            assert_eq!(m, "unresolved placeholder in command argument: {a}")
        }
        other => panic!("unexpected {:?}", other),
    }
}

#[test]
fn trims_command_output() {
    let out = CommandOutput::from_raw(Some(3), "  hi\n", "\terr \n");
    assert_eq!(out.status, 3);
    assert_eq!(out.stdout, "hi");
    assert_eq!(out.stderr, "err");
    let out = CommandOutput::from_raw(None, "", "");
    assert_eq!(out.status, -1);
}

#[test]
fn reload_results_become_audits_and_warnings() {
    let ok = CommandOutput { status: 0, stdout: "done".into(), stderr: String::new() };
    let (audits, warnings) = summarize_reload_results(vec![
        Ok(ok),
        Err("command timed out: systemctl".into()),
        Err("boom".into()),
    ]);
    assert_eq!(audits.len(), 3);
    assert_eq!(audits[0].action, "reload_command_success");
    assert_eq!(audits[0].target_value, "0");
    assert_eq!(audits[1].action, "reload_command_failed");
    assert_eq!(audits[2].target_value, "2");
    assert_eq!(warnings, vec!["command timed out: systemctl", "boom"]);
}

#[test]
fn shell_keeps_its_timeout() {
    assert_eq!(Shell::new(10).timeout_seconds(), 10);
}
