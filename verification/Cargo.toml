[package]
name = "map_gallery"
version = "0.1.0"
edition = "2021"
publish = false

[dependencies]
anyhow = "1"
log = "0.4"
reqwest = { version = "0.11", default-features = false }
ron = "0.8"
serde = { version = "1", features = ["derive"] }
serde_json = "1"
strum = { version = "0.26", features = ["derive"] }
wasm-logger = "0.2"
yew = { version = "0.21", features = ["csr"] }
yew-router = "0.18"
