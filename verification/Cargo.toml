[package]
name = "wsrelay"
version = "0.1.0"
edition = "2021"
publish = false

[dependencies]
flate2 = "1"
getrandom = { version = "0.2", features = ["js"] }
hex = "0.4"
prost = "0.13"
serde = { version = "1", features = ["derive"] }
worker = "*"
js-sys = "0.3"
wasm-bindgen = "0.2"
wasm-bindgen-futures = "0.4"
web-sys = { version = "0.3", features = ["Crypto", "CryptoKey", "SubtleCrypto", "WorkerGlobalScope", "console"] }
