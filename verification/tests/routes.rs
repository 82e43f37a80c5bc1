use chatmail_control::chatmail::log_source_by_name;
use chatmail_control::routes::api::filter_users;
use chatmail_control::routes::logs::{log_limit, log_source_views};
use chatmail_control::routes::services::{action_redirect, selected_service, service_status};
use chatmail_control::routes::users::{delete_outcome, selected_metadata, status_banner};
use chatmail_control::users::UserMailbox;

fn user(address: &str, metadata: Option<&str>) -> UserMailbox {
    UserMailbox {
        address: address.into(),
        blocked: false,
        mailbox_size: None,
        message_count: None,
        last_seen: None,
        metadata: metadata.map(|m| m.to_string()),
    }
}

#[test]
fn banners() {
    let (k, t, m) = status_banner(Some("delete-ok"));
    assert_eq!(k.as_deref(), Some("success"));
    assert_eq!(t.as_deref(), Some("Delete command completed."));
    assert!(m.unwrap().contains("exit code 0"));
    assert_eq!(status_banner(Some("delete-failed")).0.as_deref(), Some("error"));
    assert_eq!(status_banner(Some("other")), (None, None, None));
    assert_eq!(service_status(Some("service-ok")), (Some("success".to_string()), Some("Service action completed.".to_string())));
    assert_eq!(service_status(Some("service-failed")).1.as_deref(), Some("Service action failed."));
    assert_eq!(service_status(None), (None, None));
}

#[test]
fn picks_selected_items() {
    let users = vec![user("a@x", Some("meta a")), user("b@x", None)];
    assert_eq!(selected_metadata(&users, Some("a@x".into())), Some("meta a".to_string()));
    assert_eq!(selected_metadata(&users, Some("b@x".into())), None);
    assert_eq!(selected_metadata(&users, None), None);
    let services = vec!["postfix".to_string(), "dovecot".to_string()];
    assert_eq!(selected_service(None, &services), "postfix");
    assert_eq!(selected_service(Some("dovecot".into()), &services), "dovecot");
    assert_eq!(selected_service(None, &[]), "");
    assert_eq!(action_redirect("postfix", 0), "/admin/services?status=service-ok&service=postfix");
    assert_eq!(action_redirect("postfix", 1), "/admin/services?status=service-failed&service=postfix");
    assert_eq!(delete_outcome(0), ("mailbox_deleted".to_string(), "/admin/users?status=delete-ok".to_string()));
    assert_eq!(delete_outcome(2).0, "mailbox_delete_failed");
}

#[test]
fn logs_page_choices() {
    assert_eq!(log_limit(None), 200);
    assert_eq!(log_limit(Some(5)), 5);
    let views = log_source_views(&log_source_by_name(Some("postfix")));
    let selected: Vec<&str> = views.iter().filter(|v| v.selected).map(|v| v.name.as_str()).collect();
    assert_eq!(selected, vec!["postfix"]);
    assert_eq!(views.len(), 6);
}

#[test]
fn filters_users_for_the_api() {
    let rows = vec![user("Alice@x.org", None), user("bob@x.org", None), user("carol@y.org", None)];
    let (kept, total) = filter_users(rows.clone(), Some("  X.ORG "), Some(1));
    assert_eq!(total, 2);
    assert_eq!(kept.len(), 1);
    assert_eq!(kept[0].address, "Alice@x.org");
    let (kept, total) = filter_users(rows.clone(), Some("   "), None);
    assert_eq!((kept.len(), total), (3, 3));
    let (kept, total) = filter_users(rows, None, Some(10));
    assert_eq!((kept.len(), total), (3, 3));
}
