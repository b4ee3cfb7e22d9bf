[package]
name = "mpx_loader"
version = "0.1.0"
edition = "2021"
rust-version = "1.95"
publish = false

[dependencies]
memchr = "=2.8.3"
oxc_span = "0.95"
