[package]
name = "tunl"
version = "0.1.0"
edition = "2021"
publish = false

[dependencies]
md-5 = "=0.11.0"
aes-gcm = "=0.11.1"
aes = "=0.9.3"
cfb-mode = "=0.9.1"
base64 = "=0.23.1"
serde = { version = "=1.0.229", features = ["derive"] }
serde_json = "=1.0.151"
uuid = "=1.27.0"
worker = "=0.8.7"
wasm-bindgen-futures = "=0.4.79"
futures-util = "=0.3.34"
tokio = { version = "=1.53.2", default-features = false, features = ["io-util"] }
