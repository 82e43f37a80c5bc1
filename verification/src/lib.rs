//! Verified core of the chatmail control panel.
pub mod audit;
pub mod auth;
pub mod bans;
pub mod chatmail;
pub mod config;
pub mod db;
pub mod error;
pub mod health;
pub mod invites;
pub mod logs;
pub mod number;
pub mod postfix;
pub mod request_id;
pub mod routes;
pub mod services;
pub mod settings;
pub mod shell;
pub mod text;
pub mod users;
