[package]
name = "netdash"
version = "0.1.0"
edition = "2021"
publish = false

[dependencies]
anyhow = "1"
crossterm = "0.27"
gethostname = "0.4"
local-ip-address = "0.6"
ratatui = "0.23"
reqwest = { version = "0.11", default-features = false, features = ["rustls-tls"] }
sysinfo = "0.29"
tokio = { version = "1", features = ["rt-multi-thread", "macros", "time"] }
