//! What the admin pages decide from their query parameters and results.
pub mod api;
pub mod logs;
pub mod services;
pub mod users;
