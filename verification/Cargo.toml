[package]
name = "wayback-rs"
version = "0.1.0"
edition = "2021"
publish = false

[dependencies]
bytes = "1"
chrono = "0.4"
clap = { version = "3", features = ["derive"] }
csv = "1"
data-encoding = "2"
flate2 = "1"
futures = "0.3"
log = "0.4"
reqwest = { version = "0.11", default-features = false, features = ["rustls-tls"] }
serde_json = "1"
sha1 = "0.10"
simplelog = "0.12"
thiserror = "1"
tokio = { version = "1", features = ["rt-multi-thread", "macros", "time"] }
tryhard = "0.5"
