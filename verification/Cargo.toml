[package]
name = "langbench"
version = "0.1.0"
edition = "2021"
publish = false

[dependencies]
anyhow = "=1.0.104"
chrono = "=0.4.45"
clap = { version = "=4.6.7", features = ["derive", "env"] }
liquid = "=0.26.11"
# liquid depends on kstring; the newer kstring releases need a newer compiler than
# the one this crate builds with, so its version is held here.
kstring = "=2.0.2"
schemars = "=1.2.3"
serde = { version = "=1.0.229", features = ["derive"] }
serde_json = "=1.0.154"
serde_norway = "=0.9.42"
signal-hook = "=0.3.18"
tracing = "=0.1.44"
tracing-subscriber = { version = "=0.3.23", features = ["env-filter"] }
wasm-bindgen = "=0.2.130"
js-sys = "=0.3.107"
serde-wasm-bindgen = "=0.6.5"
console_error_panic_hook = "=0.1.7"
