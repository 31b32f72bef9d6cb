[package]
name = "rbxmonet"
version = "0.1.31"
edition = "2021"
publish = false

[dependencies]
regex = "1"
dyn-fmt = "*"
blake3 = { version = "1", features = ["pure"] }
toml_edit = "*"
toml = "*"
serde = { version = "1", features = ["derive"] }
serde_json = "1"
tokio = { version = "1", features = ["full"] }
reqwest = { version = "0.12", default-features = false, features = ["json", "multipart", "cookies", "rustls-tls"] }
reqwest-middleware = { version = "0.4", features = ["multipart"] }
http = "1"
async-trait = "*"
clap = { version = "4", features = ["derive"] }
crossterm = "*"
ratatui = "*"
dotenv = "*"
env_logger = "*"
log = "*"
color-eyre = "*"
image = { version = "*", default-features = false, features = ["png", "jpeg"] }
