[package]
name = "space"
version = "0.1.0"
edition = "2021"
publish = false

[dependencies]
anyhow = "1"
clap = { version = "4", features = ["derive"] }
clap_complete = "4"
colored = "*"
dialoguer = "*"
dirs = "*"
git2 = { version = "*", default-features = false }
indicatif = "*"
libc = "0.2"
nucleo = "*"
rmcp = { version = "*", features = ["server", "macros", "transport-io"] }
serde = { version = "1", features = ["derive"] }
serde_json = "1"
tokio = { version = "1", features = ["rt", "macros", "io-std"] }
toml = "*"
tracing = "0.1"
tracing-appender = "*"
tracing-subscriber = { version = "0.3", features = ["env-filter"] }
walkdir = "2"

[dev-dependencies]
tempfile = "3"
