[package]
name = "portkiller"
version = "0.1.0"
edition = "2021"
publish = false

[dependencies]
anyhow = "1"
auto-launch = "*"
crossbeam-channel = "0.5"
dirs = "*"
env_logger = "*"
log = "0.4"
nix = { version = "*", features = ["signal"] }
notify = "*"
png = "*"
serde = { version = "1", features = ["derive"] }
serde_json = "1"
smappservice-rs = "*"
tray-icon = "*"
winit = "0.30"
winreg = "*"
