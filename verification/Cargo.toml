[package]
name = "chatmail_control"
version = "0.1.0"
edition = "2021"
publish = false

[dependencies]
anyhow = "1"
argon2 = "0.5"
askama = "0.12"
askama_axum = "0.4"
axum = "0.7"
axum-extra = { version = "0.9", features = ["cookie-private"] }
chrono = "0.4"
clap = { version = "4", features = ["derive", "env"] }
hickory-resolver = "0.24"
libc = "0.2"
rand = "0.8"
regex = "1"
serde = { version = "1", features = ["derive"] }
serde_json = "1"
sqlx = { version = "0.8", default-features = false, features = ["runtime-tokio", "sqlite", "migrate", "derive"] }
thiserror = "1"
tokio = { version = "1", features = ["full"] }
toml = "0.8"
tower-http = { version = "0.5", features = ["fs", "trace"] }
tracing = "0.1"
tracing-subscriber = { version = "0.3", features = ["env-filter"] }
uuid = { version = "1", features = ["v4"] }
