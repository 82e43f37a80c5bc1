//! The configuration that the panel runs with.
use vstd::prelude::*;

verus! {

#[derive(Debug, Clone)]
pub struct Config {
    pub server: ServerConfig,
    pub auth: AuthConfig,
    pub bans: BansConfig,
    pub settings: SettingsConfig,
    pub invites: InvitesConfig,
    pub health: HealthConfig,
}

#[derive(Debug, Clone)]
pub struct ServerConfig {
    pub bind: String,
    pub public_url: String,
    pub secure_cookies: bool,
    pub database_url: String,
}

#[derive(Debug, Clone)]
pub struct AuthConfig {
    pub session_secret: String,
    pub session_ttl_hours: i64,
}

#[derive(Debug, Clone)]
pub struct BansConfig {
    pub address_file: String,
    pub domain_file: String,
    pub ip_file: String,
}

#[derive(Debug, Clone)]
pub struct SettingsConfig {
    pub generated_policy_file: String,
}

#[derive(Debug, Clone)]
pub struct InvitesConfig {
    pub export_file: String,
}

#[derive(Debug, Clone)]
pub struct HealthConfig {
    pub domain: String,
    pub dkim_selector: String,
    pub services: Vec<String>,
    pub ports: Vec<u16>,
}

/// The value of `secure_cookies` when the file leaves it out.
pub fn default_true() -> (r: bool)
    ensures
        r,
{
    true
}

} // verus!
