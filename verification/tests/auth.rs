use chatmail_control::auth::{
    check_credentials, check_login_csrf, cookie_key_bytes, derive_cookie_key, hash_password,
    rate_limit_key, validate_csrf, verify_password, Admin, CurrentAdmin, LoginRateLimiter, Session,
    LOGIN_WINDOW_MS, MAX_LOGIN_ATTEMPTS,
};
use chatmail_control::error::AppError;

#[test]
fn hashes_and_verifies_password() {
    let hash = hash_password("secret").expect("hash");
    assert!(verify_password("secret", &hash).expect("verify"));
    assert!(!verify_password("other", &hash).expect("verify mismatch"));
}

#[test]
fn hash_is_not_the_password() {
    let hash = hash_password("secret").unwrap();
    assert_ne!(hash, "secret");
    assert!(hash.starts_with("$argon2"));
}

#[test]
fn malformed_hash_is_an_internal_error() {
    assert!(matches!(verify_password("secret", "not a hash"), Err(AppError::Internal(_))));
}

fn current(token: &str) -> CurrentAdmin {
    CurrentAdmin {
        admin: Admin { id: 1, username: "admin".into(), password_hash: String::new() },
        session: Session { id: "s".into(), admin_id: 1, csrf_token: token.into() },
    }
}

#[test]
fn csrf_tokens_must_match() {
    assert!(validate_csrf(&current("abc"), "abc").is_ok());
    assert!(matches!(validate_csrf(&current("abc"), "abd"), Err(AppError::Forbidden)));
    assert!(check_login_csrf(Some("t"), "t").is_ok());
    assert!(matches!(check_login_csrf(Some("t"), "u"), Err(AppError::Forbidden)));
    assert!(matches!(check_login_csrf(None, "t"), Err(AppError::Forbidden)));
}

#[test]
fn rate_limit_key_joins_ip_and_user() {
    assert_eq!(rate_limit_key("127.0.0.1", "admin"), "127.0.0.1:admin");
}

#[test]
fn rate_limiter_refuses_the_eleventh_attempt() {
    let mut limiter = LoginRateLimiter::new();
    for i in 0..MAX_LOGIN_ATTEMPTS as u64 {
        assert!(limiter.check("ip:admin", 1000 + i).is_ok());
    }
    match limiter.check("ip:admin", 2000) {
        Err(AppError::Validation(m)) => {
            assert_eq!(m, "too many login attempts, please try again later")
        }
        other => panic!("unexpected {:?}", other),
    }
    assert!(limiter.check("ip:other", 2000).is_ok());
    assert!(limiter.check("ip:admin", 2000 + LOGIN_WINDOW_MS).is_ok());
}

#[test]
fn rate_limiter_window_slides() {
    let mut limiter = LoginRateLimiter::default();
    for i in 0..10u64 {
        assert!(limiter.check("k", i * 60_000).is_ok());
    }
    assert!(limiter.check("k", 599_999).is_err());
    assert!(limiter.check("k", 600_000).is_ok());
    assert!(limiter.check("k", 600_001).is_err());
}

#[test]
fn cookie_key_repeats_the_secret() {
    let bytes = cookie_key_bytes(b"abc");
    assert_eq!(bytes.len(), 64);
    assert_eq!(&bytes[0..6], b"abcabc");
    assert_eq!(bytes[63], b'a');
    let _key = derive_cookie_key("a-long-random-secret");
}

#[test]
fn credentials_need_a_matching_password() {
    let hash = hash_password("pw").unwrap();
    let admin = Admin { id: 7, username: "root".into(), password_hash: hash };
    let got = check_credentials(Some(admin.clone()), "pw").unwrap();
    assert_eq!(got.id, 7);
    assert!(matches!(check_credentials(Some(admin), "nope"), Err(AppError::InvalidCredentials)));
    assert!(matches!(check_credentials(None, "pw"), Err(AppError::InvalidCredentials)));
    let broken = Admin { id: 8, username: "x".into(), password_hash: "not a hash".into() };
    assert!(matches!(check_credentials(Some(broken), "pw"), Err(AppError::Internal(_))));
}
