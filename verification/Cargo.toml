[package]
name = "egostrategy_datahub"
version = "1.0.0"
edition = "2021"
publish = false

[dependencies]
arrow = { version = "=60.0.0", default-features = false, features = ["ipc"] }
arrow-array = "=60.0.0"
async-trait = "=0.1.92"
calamine = "=0.37.0"
chrono = "=0.4.45"
clap = "=4.6.7"
env_logger = "=0.11.11"
httpdate = "=1.0.3"
log = "=0.4.34"
reqwest = { version = "=0.13.5", features = ["blocking", "json", "query"] }
serde = { version = "=1.0.229", features = ["derive"] }
serde_json = "=1.0.154"
thiserror = "=2.0.21"
tokio = { version = "=1.54.1", features = ["rt-multi-thread", "macros", "time", "sync"] }
