[package]
name = "linux_bt_proxy"
version = "0.1.0"
edition = "2021"
publish = false

[dependencies]
anyhow = "*"
clap = { version = "*", features = ["derive"] }
env_logger = "*"
futures-util = "*"
gethostname = "*"
libc = "*"
log = "*"
mac_address = "*"
mdns-sd = "*"
tokio = { version = "*", features = ["full"] }
zbus = { version = "*", features = ["tokio"], default-features = false }
