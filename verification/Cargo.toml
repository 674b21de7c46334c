[package]
name = "pith"
version = "0.1.0"
edition = "2021"
publish = false

[dependencies]
argon2 = "0.5"
rand = "0.8"
chrono = "0.4"
unicode-normalization = "0.1"
rpassword = "7"
serde = { version = "1", features = ["derive"] }
serde_json = "1"
tokio = { version = "1", features = ["full"] }
tracing = "0.1"
tracing-subscriber = { version = "0.3", features = ["env-filter"] }
clap = { version = "4", features = ["derive"] }
notify = "*"
filetime = "0.2"
walkdir = "2"
thiserror = "*"

[dev-dependencies]
tempfile = "3"
