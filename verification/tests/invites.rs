use chatmail_control::invites::{
    export_content, generate_token, invite_toggle_action, token_from_bytes,
};

#[test]
fn generates_random_token() {
    let token = generate_token();
    assert_eq!(token.len(), 32);
    assert!(token.chars().all(|c| c.is_ascii_alphanumeric()));
}

#[test]
fn tokens_differ() {
    assert_ne!(generate_token(), generate_token());
}

#[test]
fn exports_one_token_per_line() {
    let tokens = vec!["aaa".to_string(), "bbb".to_string()];
    assert_eq!(export_content(&tokens), "aaa\nbbb");
    assert_eq!(export_content(&[]), "");
    assert_eq!(invite_toggle_action(true), "invite_reactivated");
    assert_eq!(invite_toggle_action(false), "invite_deactivated");
}

#[test]
fn token_text_keeps_each_byte() {
    assert_eq!(token_from_bytes(b"aZ09"), "aZ09");
    assert_eq!(token_from_bytes(&[]), "");
}
