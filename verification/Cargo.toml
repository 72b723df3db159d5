[package]
name = "gemini-processor"
version = "0.1.0"
edition = "2021"
publish = false

[dependencies]
regex = "1"
zip = { version = "0.6", default-features = false, features = ["deflate"] }
wasm-bindgen = "0.2"
web-sys = { version = "0.3", features = ["Document", "DomParser", "Element", "Node", "NodeList", "SupportedType"] }
console_error_panic_hook = "0.1"
