[package]
name = "repeater"
version = "0.1.0"
edition = "2021"
publish = false

[dependencies]
anyhow = "=1.0.104"
async-openai = { version = "=0.42.2", default-features = false, features = ["chat-completion", "model", "responses"] }
blake3 = "=1.8.7"
chrono = "=0.4.45"
crossterm = "=0.29.0"
directories = "=6.0.0"
futures = "=0.3.34"
html-escape = "=0.2.15"
keyring = { version = "3", default-features = false }
ratatui = "=0.30.2"
regex = "=1.13.1"
serde_json = "=1.0.154"
sqlx = { version = "=0.8.6", default-features = false, features = ["sqlite", "runtime-tokio", "chrono"] }
tempfile = "=3.27.0"
tokio = { version = "=1.54.1", features = ["rt", "macros"] }
zip = { version = "=9.0.5", default-features = false, features = ["deflate"] }
