[package]
name = "dex_simulator_core"
version = "0.1.0"
edition = "2021"
publish = false

[dependencies]
ethers = { version = "2", default-features = false, features = ["ws", "abigen"] }
hex = "0.4"
serde = { version = "1", features = ["derive"] }
serde_json = "1"
serde_yaml = "0.9"
config = { version = "0.14", default-features = false, features = ["yaml", "json", "toml"] }
tokio = { version = "1", features = ["full"] }
axum = "0.8"
clap = { version = "4", features = ["derive"] }
anyhow = "1"
thiserror = "1"
log = "0.4"
tracing = "0.1"
tracing-subscriber = { version = "0.3", features = ["env-filter"] }
tracing-log = "0.2"
chrono = "0.4"
once_cell = "1"
async-trait = "0.1"
futures-util = "0.3"
