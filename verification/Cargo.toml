[package]
name = "mirakc-core"
version = "0.1.0"
edition = "2021"
publish = false

[dependencies]
chrono = "=0.4.45"
cron = "=0.12.1"
glob = "0.3"
humantime = "=2.4.0"
humantime-serde = "=1.1.1"
indexmap = { version = "=2.14.2", features = ["serde"] }
mustache = "0.9"
path-dedot = "3"
serde = { version = "=1.0.229", features = ["derive"] }
serde_json = "=1.0.154"
serde_yaml = "=0.9.34"
shell-words = "1"
smallstr = "=0.3.1"
thiserror = "=1.0.69"
toml = "=0.8.23"
tracing = "=0.1.44"
url = "=2.5.8"
