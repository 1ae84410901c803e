[package]
name = "market-sifter"
version = "0.1.0"
edition = "2021"
publish = false

[dependencies]
csv = "1"
env_logger = "0.11"
indicatif = "0.17"
log = "0.4"
reqwest = { version = "0.12", features = ["json"] }
serde = { version = "1", features = ["derive"] }
serde_json = "1"
time = "0.3"
tokio = { version = "1", features = ["macros", "rt-multi-thread", "sync", "time"] }
