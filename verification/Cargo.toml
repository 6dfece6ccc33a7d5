[package]
name = "pycn"
version = "0.1.0"
edition = "2021"
publish = false

[dependencies]
chinese2digits = "*"
clap = { version = "4", features = ["derive"] }
pyo3 = "0.23"
ureq = "2"
flate2 = "1"
tar = "0.4"
axum = "0.8"
tokio = { version = "1", features = ["full"] }
serde_json = "1"
wasm-bindgen = "0.2"

[dev-dependencies]
logos = "0.15"
