[package]
name = "bsky_context"
version = "0.1.0"
edition = "2021"
publish = false

[dependencies]
indexmap = { version = "2", features = ["serde"] }
serde = { version = "1", features = ["derive"] }
serde_json = { version = "1", features = ["preserve_order"] }
sha2 = "0.10"
url = "2"
thiserror = "2"
log = "0.4"
futures = "0.3"
anyhow = "1"
clap = { version = "4", features = ["derive"] }
env_logger = "0.11"
jiff = "0.2"
tokio = { version = "1", features = ["rt", "rt-multi-thread", "time"] }
reqwest = { version = "0.12", default-features = false, features = ["json", "rustls-tls"] }
