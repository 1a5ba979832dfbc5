[package]
name = "mycelium"
version = "0.1.0"
edition = "2021"
publish = false

[dependencies]
libp2p = { version = "*", features = ["tokio", "tcp", "noise", "yamux", "gossipsub", "mdns", "request-response", "macros"] }
serde_json = "*"
serde = { version = "*", features = ["derive"] }
tokio = { version = "*", features = ["full"] }
futures = "*"
once_cell = "*"
toml = "*"
libc = "*"
async-trait = "*"
