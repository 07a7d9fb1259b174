[package]
name = "fetch_directory"
version = "0.1.0"
edition = "2021"
publish = false

[dependencies]
tantivy = { version = "*", default-features = false }
once_cell = "*"
serde_json = "*"
wasm-bindgen = "*"
console_error_panic_hook = "*"
