[package]
name = "insights-runtime-extractor"
version = "0.1.0"
edition = "2021"
publish = false

[dependencies]
caps = "0.5"
clap = { version = "4", features = ["derive"] }
env_logger = "0.11"
log = "0.4"
nix = { version = "0.29", features = ["fs", "process", "sched", "user"] }
rc-zip-sync = "*"
rouille = "3"
serde = { version = "1", features = ["derive"] }
serde_json = "1"
sysinfo = "0.30"
tempfile = "3"
tokio = { version = "1", features = ["full"] }
toml = "0.8"
