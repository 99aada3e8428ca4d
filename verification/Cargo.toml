[package]
name = "stowe"
version = "0.1.0"
edition = "2021"
publish = false

[dependencies]
zeroize = "=1.9.1"
chrono = { version = "=0.4.45", default-features = false, features = ["clock", "std"] }
age = "=0.10.1"
serde = { version = "=1.0.229", features = ["derive"] }
serde_json = "=1.0.154"
toml = { version = "=0.8.23", features = ["preserve_order"] }
rusqlite = { version = "=0.31.0", features = ["bundled"] }
dirs = "=5.0.1"
anyhow = "=1.0.104"
thiserror = "=1.0.69"
clap = { version = "=4.6.7", features = ["derive"] }
dialoguer = "=0.11.0"
security-framework = "=2.11.1"
security-framework-sys = "=2.17.0"
core-foundation = "=0.9.4"
