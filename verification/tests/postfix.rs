use chatmail_control::config::BansConfig;
use chatmail_control::postfix::{
    ban_policy_requirements, format_output, merge_restrictions, normalize_restriction_list,
    normalize_rule, plan_setting, postconf_value, split_restrictions, unchanged_note, updated_note,
    SettingPlan,
};
use chatmail_control::shell::CommandOutput;

fn strings(v: &[&str]) -> Vec<String> {
    v.iter().map(|s| s.to_string()).collect()
}

#[test]
fn splits_and_normalizes() {
    assert_eq!(split_restrictions(" a ,, b c ,\n"), vec!["a", "b c"]);
    assert_eq!(normalize_rule("  Check_Sender_Access   texthash:/X\t"), "check_sender_access texthash:/x");
    assert_eq!(normalize_restriction_list("A  B, c"), vec!["a b", "c"]);
}

#[test]
fn merges_missing_rules_in_front() {
    let required = strings(&["check_client_access texthash:/b", "reject_unauth_destination"]);
    let merged = merge_restrictions("permit_mynetworks, Reject_Unauth_Destination", &required);
    assert_eq!(
        merged,
        "check_client_access texthash:/b, permit_mynetworks, Reject_Unauth_Destination"
    );
    assert_eq!(merge_restrictions("", &required), "check_client_access texthash:/b, reject_unauth_destination");
}

#[test]
fn second_merge_changes_nothing() {
    let required = strings(&["check_sender_access texthash:/a", "check_sender_access texthash:/d"]);
    let once = merge_restrictions("permit_sasl_authenticated,  reject", &required);
    let twice = merge_restrictions(&once, &required);
    assert_eq!(normalize_restriction_list(&once), normalize_restriction_list(&twice));
    assert!(matches!(plan_setting(&once, &required), SettingPlan::Unchanged));
    match plan_setting("reject", &required) {
        SettingPlan::Update(m) => assert_eq!(
            m,
            "check_sender_access texthash:/a, check_sender_access texthash:/d, reject"
        ),
        SettingPlan::Unchanged => panic!("expected an update"),
    }
}

#[test]
fn requirements_point_at_ban_files() {
    let bans = BansConfig {
        address_file: "/etc/a.txt".into(),
        domain_file: "/etc/d.txt".into(),
        ip_file: "/etc/i.txt".into(),
    };
    let req = ban_policy_requirements(&bans);
    assert_eq!(req.len(), 3);
    assert_eq!(req[0].0, "smtpd_recipient_restrictions");
    assert_eq!(req[0].1, vec!["check_recipient_access texthash:/etc/a.txt", "reject_unauth_destination"]);
    assert_eq!(req[1].0, "smtpd_sender_restrictions");
    assert_eq!(req[1].1, vec!["check_sender_access texthash:/etc/a.txt", "check_sender_access texthash:/etc/d.txt"]);
    assert_eq!(req[2].0, "smtpd_client_restrictions");
    assert_eq!(req[2].1, vec!["check_client_access texthash:/etc/i.txt"]);
}

#[test]
fn reads_postconf_and_writes_notes() {
    let ok = CommandOutput { status: 0, stdout: " reject \n".into(), stderr: String::new() };
    assert_eq!(postconf_value(&ok), "reject");
    let bad = CommandOutput { status: 1, stdout: "x".into(), stderr: "no such parameter".into() };
    assert_eq!(postconf_value(&bad), "");
    assert_eq!(format_output(&bad), "no such parameter");
    assert_eq!(format_output(&ok), " reject \n");
    assert_eq!(unchanged_note("smtpd_client_restrictions"), "smtpd_client_restrictions unchanged");
    assert_eq!(updated_note("k", &bad), "k updated: no such parameter");
}

#[test]
fn merging_twice_gives_the_same_text() {
    let required = vec![
        "check_sender_access texthash:/etc/a".to_string(),
        "check_sender_access texthash:/etc/b".to_string(),
    ];
    for current in ["", "permit_mynetworks,reject", " check_sender_access  texthash:/etc/b , x"] {
        let once = merge_restrictions(current, &required);
        assert_eq!(merge_restrictions(&once, &required), once);
    }
}
