[package]
name = "site_router"
version = "0.1.0"
edition = "2021"
publish = false

[dependencies]
anyhow = "1"
async-trait = "0.1"
env_logger = "0.11"
hickory-proto = "0.24"
hickory-server = "0.24"
log = "0.4"
num_cpus = "1"
pingora-core = { version = "0.4", default-features = false }
pingora-error = "0.4"
pingora-http = "0.4"
pingora-proxy = { version = "0.4", default-features = false }
prometheus = "0.13"
serde = { version = "1", features = ["derive"] }
serde_yaml = "0.9"
tokio = { version = "1", features = ["rt-multi-thread", "macros", "net", "sync", "fs"] }
