[package]
name = "ec"
version = "0.1.0"
edition = "2021"
publish = false

[dependencies]
anyhow = "=1.0.104"
base64 = "=0.22.1"
chrono = "=0.4.45"
dotenvy = "=0.15.7"
hex = "=0.4.3"
nostr-sdk = "=0.44.1"
rand = "=0.10.3"
secrecy = "=0.10.3"
serde = { version = "=1.0.229", features = ["derive"] }
serde_json = "=1.0.154"
sha2 = "=0.10.9"
sqlx = { version = "=0.8.6", default-features = false, features = ["migrate", "runtime-tokio", "sqlite"] }
tokio = { version = "=1.54.1", features = ["full"] }
toml = "=0.9.12"
tonic = { version = "=0.14.9", features = ["tls-ring"] }
tracing = "=0.1.44"
tracing-subscriber = { version = "=0.3.23", features = ["env-filter"] }
