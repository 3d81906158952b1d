[package]
name = "euv_docs"
version = "0.1.0"
edition = "2021"
publish = false

[dependencies]
euv = "*"
euv-ui = "*"
web-sys = { version = "*", features = ["Window", "Document", "Element"] }
console_error_panic_hook = "*"
