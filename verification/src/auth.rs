//! Admin accounts, sessions, CSRF checks, password hashes and the login
//! rate limit.
use argon2::password_hash::rand_core::OsRng;
use argon2::password_hash::{PasswordHash, PasswordHasher, PasswordVerifier, SaltString};
use argon2::Argon2;
use axum_extra::extract::cookie::Key;
use vstd::prelude::*;
use vstd::string::StringSliceAdditionalSpecFns;

use crate::error::{AppError, AppResult};

verus! {

#[derive(Debug, Clone)]
pub struct Admin {
    pub id: i64,
    pub username: String,
    pub password_hash: String,
}

#[derive(Debug, Clone)]
pub struct Session {
    pub id: String,
    pub admin_id: i64,
    pub csrf_token: String,
}

#[derive(Debug, Clone)]
pub struct LoginForm {
    pub username: String,
    pub password: String,
    pub csrf_token: String,
}

#[derive(Debug, Clone)]
pub struct CsrfForm {
    pub csrf_token: String,
}

/// The signed-in admin and the session they came with.
#[derive(Debug, Clone)]
pub struct CurrentAdmin {
    pub admin: Admin,
    pub session: Session,
}

/// A form is accepted only with the CSRF token of the session.
pub fn validate_csrf(current: &CurrentAdmin, token: &str) -> (r: AppResult<()>)
    ensures
        r is Ok <==> current.session.csrf_token@ == token@,
        r is Err ==> r == Err::<(), AppError>(AppError::Forbidden),
{
    if current.session.csrf_token != token.to_owned() {
        return Err(AppError::Forbidden);
    }
    Ok(())
}

/// The login form is accepted only when the browser holds the login CSRF
/// cookie and the form carries the same token.
pub fn check_login_csrf(cookie: Option<&str>, form_token: &str) -> (r: AppResult<()>)
    ensures
        r is Ok <==> (cookie matches Some(c) && c@ == form_token@),
        r is Err ==> r == Err::<(), AppError>(AppError::Forbidden),
{
    match cookie {
        None => Err(AppError::Forbidden),
        Some(c) => {
            if c.to_owned() != form_token.to_owned() {
                Err(AppError::Forbidden)
            } else {
                Ok(())
            }
        },
    }
}

/// The key that login attempts are counted under: `<ip>:<username>`.
pub fn rate_limit_key(ip: &str, username: &str) -> (r: String)
    ensures
        r@ == ip@ + ":"@ + username@,
{
    let mut r = ip.to_owned();
    r.append(":");
    r.append(username);
    r
}

/// How long a login attempt counts against its key, in milliseconds.
pub const LOGIN_WINDOW_MS: u64 = 600_000;

/// How many attempts a key may make within the window.
pub const MAX_LOGIN_ATTEMPTS: usize = 10;

/// An attempt made at `t` still counts at `now`: less than the window ago
/// (an attempt stamped after `now` counts as just made).
pub open spec fn is_recent(now: u64, t: u64) -> bool {
    t >= now || now - t < LOGIN_WINDOW_MS
}

/// The attempts that still count at `now`, in order.
pub open spec fn keep_recent(s: Seq<u64>, now: u64) -> Seq<u64>
    decreases s.len(),
{
    if s.len() == 0 {
        s
    } else {
        let r = keep_recent(s.drop_last(), now);
        if is_recent(now, s.last()) {
            r.push(s.last())
        } else {
            r
        }
    }
}

/// The attempts a key is left with after a login attempt at `now`, and
/// whether the attempt is allowed: it is refused when the attempts that
/// still count have reached the limit, and otherwise recorded.
pub open spec fn after_attempt(old: Seq<u64>, now: u64) -> (Seq<u64>, bool) {
    let kept = keep_recent(old, now);
    if kept.len() >= MAX_LOGIN_ATTEMPTS {
        (kept, false)
    } else {
        (kept.push(now), true)
    }
}

pub proof fn lemma_keep_recent_len(s: Seq<u64>, now: u64)
    ensures
        keep_recent(s, now).len() <= s.len(),
    decreases s.len(),
{
    if s.len() > 0 {
        lemma_keep_recent_len(s.drop_last(), now);
    }
}

/// Counts login attempts per key over a sliding window.
#[derive(Debug, Clone)]
pub struct LoginRateLimiter {
    entries: Vec<(String, Vec<u64>)>,
}

impl View for LoginRateLimiter {
    type V = Map<Seq<char>, Seq<u64>>;

    closed spec fn view(&self) -> Map<Seq<char>, Seq<u64>> {
        Map::new(
            |k: Seq<char>| exists|i: int| 0 <= i < self.entries@.len() && self.entries@[i].0@ == k,
            |k: Seq<char>|
                self.entries@[choose|i: int|
                    0 <= i < self.entries@.len() && self.entries@[i].0@ == k].1@,
        )
    }
}

/// The attempts recorded for `key`, none when it has no entry.
pub open spec fn attempts_of(m: Map<Seq<char>, Seq<u64>>, key: Seq<char>) -> Seq<u64> {
    if m.contains_key(key) {
        m[key]
    } else {
        Seq::<u64>::empty()
    }
}

/// No key holds more attempts than the limit.
pub open spec fn within_limit(m: Map<Seq<char>, Seq<u64>>) -> bool {
    forall|k: Seq<char>| m.contains_key(k) ==> (#[trigger] m[k]).len() <= MAX_LOGIN_ATTEMPTS
}

impl LoginRateLimiter {
    /// Each key has one entry.
    pub closed spec fn wf(&self) -> bool {
        forall|i: int, j: int|
            0 <= i < j < self.entries@.len() ==> (#[trigger] self.entries@[i]).0@
                != (#[trigger] self.entries@[j]).0@
    }

    pub fn new() -> (r: Self)
        ensures
            r.wf(),
            r@ == Map::<Seq<char>, Seq<u64>>::empty(),
    {
        let r = LoginRateLimiter { entries: Vec::new() };
        assert(r@ =~= Map::<Seq<char>, Seq<u64>>::empty());
        r
    }

    proof fn lemma_view_at(&self, i: int)
        requires
            self.wf(),
            0 <= i < self.entries@.len(),
        ensures
            self@.contains_key(self.entries@[i].0@),
            self@[self.entries@[i].0@] == self.entries@[i].1@,
    {
        let k = self.entries@[i].0@;
        let j = choose|j: int| 0 <= j < self.entries@.len() && self.entries@[j].0@ == k;
        if i < j {
            assert(self.entries@[i].0@ != self.entries@[j].0@);
        } else if j < i {
            assert(self.entries@[j].0@ != self.entries@[i].0@);
        }
    }

    fn find(&self, key: &String) -> (r: Option<usize>)
        requires
            self.wf(),
        ensures
            r matches Some(i) ==> i < self.entries@.len() && self.entries@[i as int].0@ == key@,
            r is None ==> !self@.contains_key(key@),
    {
        let mut i: usize = 0;
        while i < self.entries.len()
            invariant
                i <= self.entries@.len(),
                forall|k: int| 0 <= k < i ==> self.entries@[k].0@ != key@,
            decreases self.entries.len() - i,
        {
            if self.entries[i].0 == *key {
                return Some(i);
            }
            i = i + 1;
        }
        None
    }

    fn keep_recent_exec(list: &Vec<u64>, now: u64) -> (r: Vec<u64>)
        ensures
            r@ == keep_recent(list@, now),
    {
        let mut r: Vec<u64> = Vec::new();
        let mut i: usize = 0;
        while i < list.len()
            invariant
                i <= list.len(),
                r@ == keep_recent(list@.take(i as int), now),
            decreases list.len() - i,
        {
            let t = list[i];
            let ghost cur = list@.take(i + 1);
            assert(cur.drop_last() =~= list@.take(i as int));
            if t >= now || now - t < LOGIN_WINDOW_MS {
                r.push(t);
            }
            i = i + 1;
        }
        assert(list@.take(list.len() as int) =~= list@);
        r
    }

    /// Records a login attempt for `key` made at `now` (milliseconds on a
    /// clock that does not go back), dropping the attempts that no longer
    /// count; refuses it when `MAX_LOGIN_ATTEMPTS` attempts still count.
    pub fn check(&mut self, key: &str, now: u64) -> (r: AppResult<()>)
        requires
            old(self).wf(),
        ensures
            final(self).wf(),
            final(self)@ == old(self)@.insert(key@, after_attempt(attempts_of(old(self)@, key@), now).0),
            r is Ok <==> after_attempt(attempts_of(old(self)@, key@), now).1,
            r matches Err(e) ==> e matches AppError::Validation(m) && m@
                == "too many login attempts, please try again later"@,
            within_limit(old(self)@) ==> within_limit(final(self)@),
    {
        let k = key.to_owned();
        let ghost old_view = self@;
        let idx = match self.find(&k) {
            Some(i) => {
                proof {
                    self.lemma_view_at(i as int);
                }
                i
            },
            None => {
                let ghost before = self.entries@;
                self.entries.push((k.clone(), Vec::new()));
                proof {
                    assert forall|i: int, j: int|
                        0 <= i < j < self.entries@.len() implies (#[trigger] self.entries@[i]).0@
                        != (#[trigger] self.entries@[j]).0@ by {
                        if j == self.entries@.len() - 1 {
                            assert(before[i] == self.entries@[i]);
                            assert(old_view.contains_key(before[i].0@));
                        } else {
                            assert(before[i] == self.entries@[i]);
                            assert(before[j] == self.entries@[j]);
                        }
                    }
                    assert(self.entries@[before.len() as int].0@ == key@);
                    assert forall|kk: Seq<char>| self@.contains_key(kk) <==> old_view.insert(
                        key@,
                        Seq::<u64>::empty(),
                    ).contains_key(kk) by {
                        if old_view.contains_key(kk) {
                            let i = choose|i: int| 0 <= i < before.len() && before[i].0@ == kk;
                            assert(self.entries@[i] == before[i]);
                        }
                        if self@.contains_key(kk) && kk != key@ {
                            let i = choose|i: int|
                                0 <= i < self.entries@.len() && self.entries@[i].0@ == kk;
                            assert(i < before.len());
                            assert(before[i] == self.entries@[i]);
                        }
                    }
                    assert forall|kk: Seq<char>| #[trigger] self@.contains_key(kk) implies self@[kk]
                        == old_view.insert(key@, Seq::<u64>::empty())[kk] by {
                        let i = choose|i: int|
                            0 <= i < self.entries@.len() && self.entries@[i].0@ == kk;
                        self.lemma_view_at(i);
                        if kk != key@ {
                            assert(before[i] == self.entries@[i]);
                            assert(i < before.len());
                            let j = choose|j: int| 0 <= j < before.len() && before[j].0@ == kk;
                            if i != j {
                                if i < j {
                                    assert(self.entries@[i].0@ != self.entries@[j].0@);
                                } else {
                                    assert(self.entries@[j].0@ != self.entries@[i].0@);
                                }
                            }
                        }
                    }
                    assert(self@ =~= old_view.insert(key@, Seq::<u64>::empty()));
                    self.lemma_view_at(before.len() as int);
                }
                self.entries.len() - 1
            },
        };
        let ghost mid = self@;
        let ghost mid_entries = self.entries@;
        assert(attempts_of(old_view, key@) == mid[key@]);
        let mut slot: (String, Vec<u64>) = (k, Vec::new());
        self.entries.set_and_swap(idx, &mut slot);
        let kept = Self::keep_recent_exec(&slot.1, now);
        let allowed = kept.len() < MAX_LOGIN_ATTEMPTS;
        let mut new_list = kept;
        if allowed {
            new_list.push(now);
        }
        let ghost new_view = new_list@;
        self.entries.set(idx, (slot.0, new_list));
        proof {
            assert(after_attempt(attempts_of(old_view, key@), now).0 == new_view);
            assert forall|i: int, j: int|
                0 <= i < j < self.entries@.len() implies (#[trigger] self.entries@[i]).0@
                != (#[trigger] self.entries@[j]).0@ by {
                assert(mid_entries[i].0@ != mid_entries[j].0@);
            }
            assert forall|kk: Seq<char>| self@.contains_key(kk) <==> mid.contains_key(kk) by {
                if mid.contains_key(kk) {
                    let i = choose|i: int| 0 <= i < mid_entries.len() && mid_entries[i].0@ == kk;
                    assert(self.entries@[i].0@ == kk);
                }
                if self@.contains_key(kk) {
                    let i = choose|i: int| 0 <= i < self.entries@.len() && self.entries@[i].0@ == kk;
                    assert(mid_entries[i].0@ == kk);
                }
            }
            assert forall|kk: Seq<char>| #[trigger] self@.contains_key(kk) implies self@[kk]
                == mid.insert(key@, new_view)[kk] by {
                let i = choose|i: int| 0 <= i < self.entries@.len() && self.entries@[i].0@ == kk;
                self.lemma_view_at(i);
                if i != idx {
                    assert(mid_entries[i] == self.entries@[i]);
                    let j = choose|j: int| 0 <= j < mid_entries.len() && mid_entries[j].0@ == kk;
                    if i != j {
                        if i < j {
                            assert(mid_entries[i].0@ != mid_entries[j].0@);
                        } else {
                            assert(mid_entries[j].0@ != mid_entries[i].0@);
                        }
                    }
                }
            }
            assert(self@ =~= mid.insert(key@, new_view));
            assert(mid.insert(key@, new_view) =~= old_view.insert(key@, new_view));
            lemma_keep_recent_len(attempts_of(old_view, key@), now);
            if within_limit(old_view) {
                assert forall|kk: Seq<char>| self@.contains_key(kk) implies (#[trigger] self@[kk]).len()
                    <= MAX_LOGIN_ATTEMPTS by {
                    if kk != key@ {
                        assert(old_view.contains_key(kk));
                        assert(self@[kk] == old_view[kk]);
                    }
                }
            }
        }
        if allowed {
            Ok(())
        } else {
            Err(AppError::Validation("too many login attempts, please try again later".to_owned()))
        }
    }
}

impl Default for LoginRateLimiter {
    fn default() -> (r: Self)
        ensures
            r.wf(),
            r@ == Map::<Seq<char>, Seq<u64>>::empty(),
    {
        Self::new()
    }
}


/// Whether a text parses as a PHC password hash string
/// (`argon2::password_hash::PasswordHash::new` succeeds on it).
pub uninterp spec fn phc_hash_parses(hash: Seq<char>) -> bool;

/// Whether Argon2 with default parameters accepts `password` against the
/// PHC hash string `hash` (`PasswordVerifier::verify_password` is `Ok`).
pub uninterp spec fn argon2_accepts(password: Seq<char>, hash: Seq<char>) -> bool;

/// Hashes `password` with `Argon2::default()` and a fresh random salt from
/// `OsRng` (`SaltString::generate`, then `PasswordHasher::hash_password`),
/// giving the PHC string of the hash. The salt is random, so nothing ties
/// the text to the password but this: the PHC string parses, and Argon2
/// accepts the password against it, since verifying recomputes the hash with
/// the salt and parameters that the string records; an error of the
/// hasher comes back as its text. With the default parameters and a
/// generated 16-byte salt the only error left is a password longer than
/// `MAX_PWD_LEN` (`0xFFFF_FFFF`) bytes, so shorter ones always hash.
#[verifier::external_body]
fn argon2_hash_phc(password: &str) -> (r: Result<String, String>)
    ensures
        r matches Ok(h) ==> phc_hash_parses(h@) && argon2_accepts(password@, h@),
        password.spec_bytes().len() <= 0xFFFF_FFFF ==> r is Ok,
{
    let salt = SaltString::generate(&mut OsRng);
    match Argon2::default().hash_password(password.as_bytes(), &salt) {
        Ok(hash) => Ok(hash.to_string()),
        Err(e) => Err(e.to_string()),
    }
}

/// Parses `hash` as a PHC string (`PasswordHash::new`) and checks
/// `password` against it with `Argon2::default().verify_password`. The
/// parse fails exactly when the text is no PHC string; the check's outcome
/// is named by `argon2_accepts`. The parsed hash borrows from `hash` and
/// is used for the check only.
#[verifier::external_body]
fn argon2_verify_phc(password: &str, hash: &str) -> (r: Result<bool, String>)
    ensures
        r is Ok <==> phc_hash_parses(hash@),
        r matches Ok(b) ==> b == argon2_accepts(password@, hash@),
{
    match PasswordHash::new(hash) {
        Ok(parsed) => Ok(Argon2::default().verify_password(password.as_bytes(), &parsed).is_ok()),
        Err(e) => Err(e.to_string()),
    }
}

/// `hash` is an Argon2 PHC string that accepts `password`.
pub open spec fn hashes_password(password: Seq<char>, hash: Seq<char>) -> bool {
    phc_hash_parses(hash) && argon2_accepts(password, hash)
}

/// What checking `password` against the stored `hash` gives: whether it
/// matches, or nothing when the stored text is no PHC string.
pub open spec fn verify_outcome(password: Seq<char>, hash: Seq<char>) -> Option<bool> {
    if phc_hash_parses(hash) {
        Some(argon2_accepts(password, hash))
    } else {
        None
    }
}

/// The Argon2 hash of a password, as a PHC string that `verify_password`
/// accepts the same password against; it succeeds for every password of at
/// most `0xFFFF_FFFF` bytes.
pub fn hash_password(password: &str) -> (r: AppResult<String>)
    ensures
        r matches Ok(h) ==> hashes_password(password@, h@),
        password.spec_bytes().len() <= 0xFFFF_FFFF ==> r is Ok,
        r matches Err(e) ==> e is Internal,
{
    match argon2_hash_phc(password) {
        Ok(h) => Ok(h),
        Err(e) => Err(AppError::Internal(e)),
    }
}

/// Whether `password` matches the stored hash; an internal error when the
/// stored text is no PHC hash string.
pub fn verify_password(password: &str, hash: &str) -> (r: AppResult<bool>)
    ensures
        match r {
            Ok(b) => verify_outcome(password@, hash@) == Some(b),
            Err(e) => verify_outcome(password@, hash@) is None && e is Internal,
        },
{
    match argon2_verify_phc(password, hash) {
        Ok(b) => Ok(b),
        Err(e) => Err(AppError::Internal(e)),
    }
}

/// A password verifies against the hash that `hash_password` made of it.
pub proof fn lemma_hashed_password_verifies(password: Seq<char>, hash: Seq<char>)
    requires
        hashes_password(password, hash),
    ensures
        verify_outcome(password, hash) == Some(true),
{
}


/// The length of the cookie signing key.
pub const COOKIE_KEY_LENGTH: usize = 64;

/// The 64 key bytes derived from a session secret: the secret's bytes
/// repeated.
pub open spec fn key_bytes_of(secret: Seq<u8>) -> Seq<u8> {
    Seq::new(COOKIE_KEY_LENGTH as nat, |i: int| secret[i % (secret.len() as int)])
}

/// The bytes that the cookie key is made from; the secret must not be
/// empty.
pub fn cookie_key_bytes(secret: &[u8]) -> (r: Vec<u8>)
    requires
        secret@.len() > 0,
    ensures
        r@ == key_bytes_of(secret@),
{
    let mut r: Vec<u8> = Vec::new();
    let mut i: usize = 0;
    while i < COOKIE_KEY_LENGTH
        invariant
            i <= COOKIE_KEY_LENGTH,
            secret@.len() > 0,
            r@ =~= key_bytes_of(secret@).take(i as int),
        decreases COOKIE_KEY_LENGTH - i,
    {
        r.push(secret[i % secret.len()]);
        i = i + 1;
    }
    assert(key_bytes_of(secret@).take(COOKIE_KEY_LENGTH as int) =~= key_bytes_of(secret@));
    r
}

#[verifier::external_type_specification]
#[verifier::external_body]
pub struct ExCookieKey(Key);

/// The cookie key that `Key::from` makes of exactly 64 bytes.
pub uninterp spec fn cookie_key_of(bytes: Seq<u8>) -> Key;

/// `Key::from` of the cookie crate (re-exported by `axum_extra`): the
/// signing and encryption key made from the given bytes, of which it needs
/// at least 64 and otherwise panics. It copies the first 64 bytes and reads
/// no others (`Key::try_from`), so the key is that of those 64 bytes.
#[verifier::external_body]
fn key_from_bytes(bytes: &[u8]) -> (r: Key)
    requires
        bytes@.len() >= 64,
    ensures
        r == cookie_key_of(bytes@.take(64)),
{
    Key::from(bytes)
}

/// The cookie key of the panel, made from `auth.session_secret`, which must
/// not be empty: the key of the secret's bytes repeated to 64.
pub fn derive_cookie_key(secret: &str) -> (r: Key)
    requires
        secret.spec_bytes().len() > 0,
    ensures
        r == cookie_key_of(key_bytes_of(secret.spec_bytes())),
{
    let bytes = cookie_key_bytes(secret.as_bytes());
    assert(bytes@.take(64) =~= key_bytes_of(secret.spec_bytes()));
    key_from_bytes(bytes.as_slice())
}


/// The admin that a login signs in: the admin found by username whose
/// stored hash accepts the password; a failed login (`InvalidCredentials`)
/// when no admin was found or the password is wrong; an internal error when
/// the stored hash is no PHC string (the credential check of
/// `authenticate`).
pub fn check_credentials(admin: Option<Admin>, password: &str) -> (r: AppResult<Admin>)
    ensures
        admin is None ==> r matches Err(AppError::InvalidCredentials),
        admin matches Some(a) ==> match verify_outcome(password@, a.password_hash@) {
            Some(true) => r == Ok::<Admin, AppError>(a),
            Some(false) => r matches Err(AppError::InvalidCredentials),
            None => r matches Err(e) && e is Internal,
        },
{
    match admin {
        None => Err(AppError::InvalidCredentials),
        Some(a) => {
            let ok = verify_password(password, a.password_hash.as_str())?;
            if ok {
                Ok(a)
            } else {
                Err(AppError::InvalidCredentials)
            }
        },
    }
}

} // verus!
