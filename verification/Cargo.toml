[package]
name = "sap_time_extractor"
version = "0.1.0"
edition = "2021"
publish = false

[dependencies]
lopdf = "*"
serde = { version = "1", features = ["derive"] }
serde_json = "1"
wasm-bindgen = "*"

[dev-dependencies]
nom = "7"
time = "0.3"
