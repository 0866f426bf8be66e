[package]
name = "axes"
version = "0.1.0"
edition = "2021"
publish = false

[dependencies]
uuid = { version = "=1.27.0", features = ["v4", "serde"] }
shlex = "=2.0.1"
anyhow = "=1.0.104"
bincode = { version = "=2.0.1", features = ["serde"] }
clap = { version = "=4.6.7", features = ["derive"] }
ctrlc = "=3.5.2"
dialoguer = "=0.12.0"
dirs = "=7.0.0"
dunce = "=1.0.5"
env_logger = "=0.11.11"
log = "=0.4.34"
serde = { version = "=1.0.229", features = ["derive"] }
thiserror = "=2.0.21"
toml = "=1.1.6"
