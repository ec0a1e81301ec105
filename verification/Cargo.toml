[package]
name = "bueno"
version = "0.1.0"
edition = "2021"
publish = false

[dependencies]
imara-diff = "*"
dprint-plugin-json = "*"
dprint-plugin-markdown = "*"
dprint-plugin-typescript = "*"
glob = "*"
tokio = { version = "*", features = ["rt", "fs", "macros"] }
