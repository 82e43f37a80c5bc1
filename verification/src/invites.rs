//! Invite tokens and the file they are exported to.
use rand::distributions::Alphanumeric;
use rand::Rng;
use vstd::prelude::*;

use crate::text::{join, join_strings, views};

verus! {

/// A stored invite.
#[derive(Debug, Clone)]
pub struct Invite {
    pub id: i64,
    pub token: String,
    pub comment: String,
    pub max_uses: i64,
    pub used_count: i64,
    pub created_by: Option<i64>,
    pub created_at: String,
    pub expires_at: Option<String>,
    pub is_active: i64,
}

pub open spec fn is_ascii_alnum_byte(b: u8) -> bool {
    (48 <= b <= 57) || (65 <= b <= 90) || (97 <= b <= 122)
}

pub open spec fn is_ascii_alnum_char(c: char) -> bool {
    ('0' <= c <= '9') || ('A' <= c <= 'Z') || ('a' <= c <= 'z')
}

/// The length of an invite token.
pub const TOKEN_LENGTH: usize = 32;

/// `len` bytes drawn from `rand::distributions::Alphanumeric` with
/// `rand::thread_rng()`. The bytes are random; what holds of every draw is
/// that there are `len` of them and each is an ASCII letter or digit, the
/// set that `Alphanumeric` samples from.
#[verifier::external_body]
fn random_alphanumeric(len: usize) -> (r: Vec<u8>)
    ensures
        r@.len() == len,
        forall|i: int| 0 <= i < r@.len() ==> is_ascii_alnum_byte(#[trigger] r@[i]),
{
    rand::thread_rng().sample_iter(&Alphanumeric).take(len).collect()
}

/// The text of drawn bytes, each byte taken as the char of the same code
/// (`char::from`).
pub fn token_from_bytes(bytes: &[u8]) -> (r: String)
    ensures
        r@ == Seq::new(bytes@.len(), |i: int| bytes@[i] as char),
{
    let mut r = String::new();
    let mut i: usize = 0;
    while i < bytes.len()
        invariant
            i <= bytes.len(),
            r@ == Seq::new(i as nat, |k: int| bytes@[k] as char),
        decreases bytes.len() - i,
    {
        let c = bytes[i] as char;
        r.push(c);
        i = i + 1;
        assert(r@ =~= Seq::new(i as nat, |k: int| bytes@[k] as char));
    }
    r
}

/// A fresh random invite token: 32 ASCII letters and digits.
pub fn generate_token() -> (r: String)
    ensures
        r@.len() == TOKEN_LENGTH,
        forall|i: int| 0 <= i < r@.len() ==> is_ascii_alnum_char(#[trigger] r@[i]),
{
    let bytes = random_alphanumeric(TOKEN_LENGTH);
    let r = token_from_bytes(bytes.as_slice());
    assert forall|i: int| 0 <= i < r@.len() implies is_ascii_alnum_char(#[trigger] r@[i]) by {
        assert(is_ascii_alnum_byte(bytes@[i]));
        assert(r@[i] == bytes@[i] as char);
    }
    r
}

/// The export file's content: the active tokens, one per line.
pub fn export_content(tokens: &[String]) -> (r: String)
    ensures
        r@ == join(views(tokens@), seq!['\n']),
{
    proof {
        reveal_strlit("\n");
        assert("\n"@ =~= seq!['\n']);
    }
    join_strings(tokens, "\n")
}

/// The audit action for switching an invite on or off.
pub fn invite_toggle_action(is_active: bool) -> (r: String)
    ensures
        r@ == (if is_active {
            "invite_reactivated"@
        } else {
            "invite_deactivated"@
        }),
{
    if is_active {
        "invite_reactivated".to_owned()
    } else {
        "invite_deactivated".to_owned()
    }
}

} // verus!
