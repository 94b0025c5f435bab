[package]
name = "linkwise"
version = "0.1.0"
edition = "2021"
publish = false

[dependencies]
sha2 = "=0.10.9"
url = "=2.5.8"
serde = { version = "=1.0.229", features = ["derive"] }
serde_json = "=1.0.154"
js-sys = "=0.3.107"
wasm-bindgen-futures = "=0.4.80"
console_error_panic_hook = "=0.1.7"
worker = { version = "=0.8.7", features = ["d1"] }
