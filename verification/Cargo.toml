[package]
name = "cextauthz"
version = "0.1.0"
edition = "2021"
publish = false

[dependencies]
prost = "0.14"
proxy-wasm = "0.2"
serde = { version = "1", features = ["derive"] }
serde_json = "1"
