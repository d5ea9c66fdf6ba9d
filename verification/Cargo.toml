[package]
name = "mkg-starship"
version = "0.1.0"
edition = "2021"
publish = false

[dependencies]
chrono = "0.4"
rand = "0.8"
web-sys = { version = "0.3", features = ["Window", "Storage"] }
console_error_panic_hook = "0.1"
