[package]
name = "visor"
version = "0.2.0"
edition = "2021"
publish = false

[dependencies]
actix-web = { version = "4", default-features = false, features = ["macros"] }
anyhow = "1"
async-trait = "0.1"
bollard = "0.13"
chrono = { version = "0.4", default-features = false, features = ["clock"] }
clap = { version = "3", features = ["derive"] }
env_logger = "0.9"
log = "0.4"
psutil = "3"
reqwest = { version = "0.11", default-features = false, features = ["json"] }
serde = { version = "1", features = ["derive"] }
serde_json = "1"
serde_yaml = "0.8"
tokio = { version = "1", features = ["full"] }
