[package]
name = "mechdata"
version = "0.1.0"
edition = "2021"
publish = false

[dependencies]
libflate = "=2.3.2"
roxmltree = "=0.21.2"
serde = { version = "=1.0.229", features = ["derive"] }
serde_json = "=1.0.154"
anyhow = "=1.0.104"
log = "=0.4.34"
yew = "=0.17.4"
wasm-logger = "=0.2.0"
console_error_panic_hook = "=0.1.7"
web-sys = { version = "=0.3.106", features = ["DataTransfer", "DragEvent"] }
