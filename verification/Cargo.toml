[package]
name = "plexspaces_services"
version = "0.1.0"
edition = "2021"
publish = false

[dependencies]
rand = "=0.8.8"
ulid = "=1.2.1"
urlencoding = "=2.1.3"
dashmap = "=6.2.1"
tokio = { version = "=1.54.1", features = ["sync", "rt", "macros", "time"] }
serde = { version = "=1.0.229", features = ["derive"] }
serde_json = "=1.0.154"
regex = "1"

[dev-dependencies]
toml = "=0.8.23"
