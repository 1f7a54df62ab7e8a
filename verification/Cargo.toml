[package]
name = "fts_mecab_rs"
version = "0.1.0"
edition = "2021"
publish = false

[dependencies]
libc = "0.2"
tracing = "0.1"
tracing-subscriber = "0.3"
