[package]
name = "netscan"
version = "0.1.0"
edition = "2021"
publish = false

[dependencies]
csv = "*"
ipnetwork = "*"
pnet_datalink = "*"
serde = { version = "*", features = ["derive"] }
serde_json = "*"
tokio = { version = "*", features = ["full"] }
