use chatmail_control::settings::{settings_entries, settings_from_rows, RegistrationSettings, SettingRow};

fn rows_of(entries: Vec<(String, String)>) -> Vec<SettingRow> {
    entries.into_iter().map(|(key, value)| SettingRow { key, value }).collect()
}

#[test]
fn saved_settings_load_back() {
    let settings = RegistrationSettings {
        registration_mode: "invite_only".into(),
        max_accounts_per_ip_per_day: 1,
        max_accounts_per_day: 5,
        cleanup_empty_mailboxes_after_days: 14,
        notes: "note".into(),
    };
    let loaded = settings_from_rows(&rows_of(settings_entries(&settings)));
    assert_eq!(loaded.registration_mode, "invite_only");
    assert_eq!(loaded.max_accounts_per_day, 5);
    assert_eq!(loaded.max_accounts_per_ip_per_day, 1);
    assert_eq!(loaded.cleanup_empty_mailboxes_after_days, 14);
    assert_eq!(loaded.notes, "note");
}

#[test]
fn entries_are_in_key_order() {
    let settings = RegistrationSettings {
        registration_mode: "public".into(),
        max_accounts_per_ip_per_day: -3,
        max_accounts_per_day: i64::MIN,
        cleanup_empty_mailboxes_after_days: 0,
        notes: String::new(),
    };
    let keys: Vec<String> = settings_entries(&settings).into_iter().map(|(k, _)| k).collect();
    assert_eq!(
        keys,
        vec![
            "cleanup_empty_mailboxes_after_days",
            "max_accounts_per_day",
            "max_accounts_per_ip_per_day",
            "notes",
            "registration_mode"
        ]
    );
    let values: Vec<String> = settings_entries(&settings).into_iter().map(|(_, v)| v).collect();
    assert_eq!(values[1], "-9223372036854775808");
    let loaded = settings_from_rows(&rows_of(settings_entries(&settings)));
    assert_eq!(loaded.max_accounts_per_day, i64::MIN);
    assert_eq!(loaded.max_accounts_per_ip_per_day, -3);
}

#[test]
fn empty_table_gives_defaults() {
    let d = settings_from_rows(&[]);
    assert_eq!(d.registration_mode, "public");
    assert_eq!(d.max_accounts_per_ip_per_day, 3);
    assert_eq!(d.max_accounts_per_day, 100);
    assert_eq!(d.cleanup_empty_mailboxes_after_days, 30);
    assert_eq!(d.notes, "");
    let d2 = RegistrationSettings::default();
    assert_eq!(d2.max_accounts_per_day, 100);
}

#[test]
fn unreadable_numbers_fall_back() {
    let rows = vec![
        SettingRow { key: "max_accounts_per_day".into(), value: "lots".into() },
        SettingRow { key: "max_accounts_per_ip_per_day".into(), value: "+7".into() },
        SettingRow { key: "cleanup_empty_mailboxes_after_days".into(), value: "99999999999999999999".into() },
        SettingRow { key: "unknown".into(), value: "1".into() },
        SettingRow { key: "registration_mode".into(), value: "closed".into() },
    ];
    let s = settings_from_rows(&rows);
    assert_eq!(s.max_accounts_per_day, 100);
    assert_eq!(s.max_accounts_per_ip_per_day, 7);
    assert_eq!(s.cleanup_empty_mailboxes_after_days, 30);
    assert_eq!(s.registration_mode, "closed");
}

#[test]
fn later_rows_win() {
    let rows = vec![
        SettingRow { key: "notes".into(), value: "old".into() },
        SettingRow { key: "notes".into(), value: "new".into() },
    ];
    assert_eq!(settings_from_rows(&rows).notes, "new");
}
