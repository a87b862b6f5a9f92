[package]
name = "dotme"
version = "0.1.0"
edition = "2021"
publish = false

[dependencies]
anyhow = "*"
chrono = "*"
clap = { version = "*", features = ["derive", "env"] }
console = "*"
dialoguer = "*"
dirs = "*"
env_logger = "*"
figment = { version = "*", features = ["env", "yaml", "toml", "json"] }
log = "*"
serde = { version = "*", features = ["derive"] }
serde_json = "*"
serde_yaml = "*"
tokio = { version = "*", features = ["fs", "process", "macros", "rt-multi-thread"] }
toml = "*"
