[package]
name = "imageproof"
version = "0.1.0"
edition = "2021"
publish = false

[dependencies]
image = { version = "0.25", default-features = false, features = ["jpeg", "png", "webp"] }
rustfft = "6"
serde = { version = "1", features = ["derive"] }
thiserror = "*"
toml = "*"
web-time = "1"
wasm-bindgen = "0.2"
serde-wasm-bindgen = "*"
console_error_panic_hook = "0.1"
