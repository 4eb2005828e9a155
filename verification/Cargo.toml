[package]
name = "kvcounter"
version = "0.1.0"
edition = "2021"
publish = false

[dependencies]
anyhow = "1"
rust-embed = "8"
wit-bindgen = "0.16"
