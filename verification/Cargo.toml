[package]
name = "matroska_remux"
version = "0.1.0"
edition = "2021"
publish = false

[dependencies]
miniz_oxide = "*"
lru = "*"
quick-xml = "*"
futures = "*"
gloo-net = "*"
wasm-bindgen = "*"
wasm-bindgen-futures = "*"
js-sys = "*"
web-sys = { version = "*", features = ["console", "ReadableStream", "ReadableStreamDefaultReader", "Response"] }
