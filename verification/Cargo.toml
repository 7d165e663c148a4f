[package]
name = "crab"
version = "0.1.0"
edition = "2021"
publish = false

[dependencies]
anyhow = "1"
atom = "0.4"
clap = { version = "4", features = ["derive"] }
crossterm = "0.25"
csv = "1"
env_logger = "0.10"
futures = "0.3"
lazy_static = "1"
log = "0.4"
pyo3 = "0.18"
rand = "0.8"
reqwest = { version = "0.11", default-features = false, features = ["rustls-tls", "socks"] }
scraper = "*"
serde = { version = "1", features = ["derive"] }
sqlx = { version = "0.6", default-features = false, features = ["sqlite", "runtime-tokio-rustls"] }
thiserror = "1"
tokio = { version = "1", features = ["rt-multi-thread", "macros", "time"] }
toml = "0.7"
tui = "0.19"
url = "2"
