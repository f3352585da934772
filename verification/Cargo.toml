[package]
name = "authenticator"
version = "0.1.0"
edition = "2021"
publish = false

[dependencies]
anyhow = "1"
base32 = "0.4"
dirs = "5"
ratatui = "0.29"
serde = { version = "1", features = ["derive"] }
serde_json = "1"
totp-rs = "5"
