use chatmail_control::config::default_true;
use chatmail_control::db::sqlite_file_path;
use chatmail_control::error::{AppError, ErrorResponse};
use chatmail_control::request_id::choose_request_id;

#[test]
fn finds_sqlite_files() {
    assert_eq!(sqlite_file_path("sqlite::memory:"), None);
    assert_eq!(sqlite_file_path("sqlite:///var/lib/x.db?mode=rwc"), Some("/var/lib/x.db".to_string()));
    assert_eq!(sqlite_file_path("sqlite://rel.db"), Some("rel.db".to_string()));
    assert_eq!(sqlite_file_path("sqlite://?mode=memory"), None);
    assert_eq!(sqlite_file_path("postgres://x"), None);
    assert!(default_true());
}

#[test]
fn errors_become_responses() {
    match AppError::Unauthorized.to_response() {
        ErrorResponse::Redirect(loc) => assert_eq!(loc, "/login"),
        other => panic!("unexpected {:?}", other),
    }
    match AppError::Validation("bad kind".into()).to_response() {
        ErrorResponse::Page { status, body } => {
            assert_eq!(status, 400);
            assert_eq!(body, "<html><body><h1>400</h1><p>bad kind</p></body></html>");
        }
        other => panic!("unexpected {:?}", other),
    }
    match AppError::InvalidCredentials.to_response() {
        ErrorResponse::Page { status, body } => {
            assert_eq!(status, 401);
            assert_eq!(body, "<html><body><h1>401</h1><p>invalid credentials</p></body></html>");
        }
        other => panic!("unexpected {:?}", other),
    }
    assert_eq!(AppError::NotFound.status_code(), 404);
    assert_eq!(AppError::Forbidden.status_code(), 403);
    assert_eq!(AppError::Config("c".into()).status_code(), 400);
    assert_eq!(AppError::Internal("i".into()).status_code(), 500);
    assert_eq!(AppError::NotFound.message(), "not found");
    assert_eq!(AppError::Forbidden.message(), "forbidden");
}

#[test]
fn keeps_incoming_request_ids() {
    assert_eq!(choose_request_id(Some("abc"), "fresh".into()), "abc");
    assert_eq!(choose_request_id(Some("   "), "fresh".into()), "fresh");
    assert_eq!(choose_request_id(None, "fresh".into()), "fresh");
}
