use chatmail_control::bans::{ban_file_line, ban_toggle_action, like_pattern, render_ban_files, Ban};
use chrono::Utc;

fn ban(id: i64, kind: &str, value: &str, active: i64) -> Ban {
    Ban {
        id,
        kind: kind.into(),
        value: value.into(),
        reason: "x".into(),
        created_by: Some(1),
        created_at: Utc::now().to_rfc3339(),
        expires_at: None,
        is_active: active,
    }
}

#[test]
fn generates_policy_files() {
    let bans = vec![
        Ban {
            id: 1,
            kind: "address".into(),
            value: "bad@example.com".into(),
            reason: "x".into(),
            created_by: Some(1),
            created_at: Utc::now().to_rfc3339(),
            expires_at: None,
            is_active: 1,
        },
        Ban {
            id: 2,
            kind: "subnet".into(),
            value: "198.51.100.0/24".into(),
            reason: "x".into(),
            created_by: Some(1),
            created_at: Utc::now().to_rfc3339(),
            expires_at: None,
            is_active: 1,
        },
    ];
    let (addresses, _, ips) = render_ban_files(&bans);
    assert!(addresses.contains("bad@example.com REJECT blocked by admin"));
    assert!(ips.contains("198.51.100.0/24 REJECT subnet blocked by admin"));
}

#[test]
fn renders_each_kind_and_skips_inactive_and_unknown() {
    let bans = vec![
        ban(1, "address", "a@x.org", 1),
        ban(2, "domain", "example.org", 1),
        ban(3, "ip", "192.0.2.1", 1),
        ban(4, "subnet", "198.51.100.0/24", 1),
        ban(5, "address", "gone@x.org", 0),
        ban(6, "country", "XX", 1),
        ban(7, "address", "b@x.org", 1),
    ];
    let (a, d, i) = render_ban_files(&bans);
    assert_eq!(a, "a@x.org REJECT blocked by admin\nb@x.org REJECT blocked by admin");
    assert_eq!(d, "example.org REJECT domain blocked by admin");
    assert_eq!(
        i,
        "192.0.2.1 REJECT ip blocked by admin\n198.51.100.0/24 REJECT subnet blocked by admin"
    );
}

#[test]
fn no_active_bans_give_empty_files() {
    let (a, d, i) = render_ban_files(&[ban(1, "address", "a@x.org", 0)]);
    assert_eq!((a.as_str(), d.as_str(), i.as_str()), ("", "", ""));
}

#[test]
fn ban_lines_and_actions() {
    assert_eq!(ban_file_line("domain", "x.org"), Some((1, "x.org REJECT domain blocked by admin".to_string())));
    assert_eq!(ban_file_line("Address", "x"), None);
    assert_eq!(ban_toggle_action(true), "ban_reactivated");
    assert_eq!(ban_toggle_action(false), "ban_deactivated");
    assert_eq!(like_pattern("spam"), "%spam%");
}
