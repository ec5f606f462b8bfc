[package]
name = "jsonrpc_client"
version = "0.1.0"
edition = "2021"
publish = false

[dependencies]
futures = "0.3"

[dev-dependencies]
serde_json = "1"
