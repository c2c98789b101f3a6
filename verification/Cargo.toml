[package]
name = "parse_message"
version = "0.1.0"
edition = "2021"
publish = false

[dependencies]
chrono = { version = "=0.4.45", default-features = false, features = ["std"] }
chrono-tz = "=0.10.4"
unicode-normalization = "=0.1.26"
html5ever = "=0.39.0"
markup5ever_rcdom = "=0.39.0"
serde = { version = "=1.0.229", features = ["derive"] }
serde_json = "=1.0.154"
wasm-bindgen = "=0.2.130"
js-sys = "=0.3.107"
serde-wasm-bindgen = "=0.6.5"
tsify = { version = "=0.5.8", default-features = false, features = ["js"] }

[dev-dependencies]
regex-lite = "=0.1.9"
