[package]
name = "processor"
version = "0.1.0"
edition = "2021"

[dependencies]
sha2 = "0.10"
wasm-bindgen = "0.2"

[dev-dependencies]
serde_json = "1.0"
