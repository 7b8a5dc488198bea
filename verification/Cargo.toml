[package]
name = "round_robin"
version = "0.1.0"
edition = "2021"
publish = false

[dependencies]
calamine = "*"
dialoguer = "*"
serde = { version = "*", features = ["derive"] }
serde_json = "*"
wasm-bindgen = "*"
