[package]
name = "livefetch"
version = "0.1.0"
edition = "2021"
publish = false

[dependencies]
anyhow = "=1.0.104"
base64 = "=0.22.1"
clap = { version = "=4.6.7", features = ["derive"] }
crossterm = "=0.28.1"
gif = "=0.13.3"
image = { version = "=0.25.10", default-features = false, features = ["png", "gif", "jpeg", "webp"] }
libc = "=0.2.191"
os_info = "=3.15.0"
serde = { version = "=1.0.229", features = ["derive"] }
serde_json = "=1.0.154"
sysinfo = "=0.32.1"
webp-animation = "=0.9.0"
whoami = "=1.6.1"
