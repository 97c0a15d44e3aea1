[package]
name = "connman"
version = "0.1.0"
edition = "2021"
publish = false

[dependencies]
anyhow = "=1.0.104"
argh = "=0.1.19"
bollard = "=0.16.1"
crossterm = "=0.27.0"
fern = "=0.6.2"
futures-util = "=0.3.34"
highway = "=1.3.0"
log = "=0.4.35"
pin-project = "=1.1.13"
prost = "=0.12.6"
rand = "=0.8.8"
ratatui = "=0.27.0"
rusqlite = "=0.31.0"
rustls-pemfile = "=1.0.4"
rustls-webpki = { version = "=0.101.7", features = ["std"] }
serde = { version = "=1.0.229", features = ["derive"] }
serde_json = "=1.0.154"
socket2 = { version = "=0.5.10", features = ["all"] }
tokio = { version = "=1.54.1", features = ["full"] }
tokio-io-timeout = "=1.2.1"
tokio-rustls = "=0.24.1"
tokio-util = "=0.7.20"
tonic = "=0.11.0"
tui-logger = "=0.11.2"
