[package]
name = "lan_terminal_chat"
version = "0.3.0"
edition = "2021"
publish = false

[dependencies]
anyhow = "1"
base64 = "0.22"
chacha20poly1305 = "0.10"
crossterm = "0.28"
hostname = "0.4"
rand = "0.8"
ratatui = { version = "0.29", features = ["unstable-rendered-line-info"] }
serde = { version = "1", features = ["derive"] }
serde_json = "1"
sha2 = "0.10"
tokio = { version = "1", features = ["full"] }
unicode-bidi = "0.3"
x25519-dalek = "2"
