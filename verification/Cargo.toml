[package]
name = "bookwriter_core"
version = "0.1.0"
edition = "2021"
publish = false

[dependencies]
anyhow = "1"
chrono = { version = "0.4", features = ["serde"] }
serde = { version = "1", features = ["derive"] }
serde-wasm-bindgen = "0.6"
thiserror = "1"
uuid = { version = "1", features = ["v4", "v5", "serde"] }
wasm-bindgen = "0.2"
