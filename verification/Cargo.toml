[package]
name = "routescope"
version = "0.1.0"
edition = "2021"
publish = false

[dependencies]
csv = "1"
serde = { version = "1", features = ["derive"] }
serde_json = "1"
tokio = { version = "1", features = ["full"] }
clap = { version = "4", features = ["derive"] }
socket2 = { version = "0.5", features = ["all"] }
libc = "0.2"
dns-lookup = "2"
maxminddb = "0.24"
once_cell = "1"
reqwest = { version = "0.12", default-features = false, features = ["json", "rustls-tls"] }
crossterm = "0.27"
ratatui = "0.26"
axum = { version = "0.7", features = ["ws"] }
