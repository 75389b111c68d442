[package]
name = "kaobot"
version = "0.1.0"
edition = "2021"
publish = false

[dependencies]
anyhow = "=1.0.104"
base64 = "=0.22.1"
chrono = "=0.4.45"
dotenvy = "=0.15.7"
dptree = "=0.3.0"
reqwest = { version = "=0.12.28", default-features = false, features = ["json", "rustls-tls"] }
serde = { version = "=1.0.229", features = ["derive"] }
serde_json = "=1.0.154"
# Held at 0.1.1 for teloxide-core, which depends on it: takecell 0.1.2 needs Rust 1.96.
takecell = "=0.1.1"
teloxide = { version = "=0.13.0", default-features = false, features = ["macros", "ctrlc_handler", "rustls"] }
tokio = { version = "=1.54.1", features = ["macros", "rt-multi-thread"] }
tracing = "=0.1.44"
tracing-subscriber = { version = "=0.3.23", features = ["env-filter"] }
