[package]
name = "aho_search"
version = "0.1.0"
edition = "2021"
publish = false

[dependencies]
aho-corasick = "1"
console_error_panic_hook = "0.1"
serde = { version = "1", features = ["derive"] }
serde-wasm-bindgen = "0.6"
wasm-bindgen = "0.2"
