[package]
name = "uniffi_haskell"
version = "0.1.0"
edition = "2021"
publish = false

[dependencies]
anyhow = "1"
camino = "1"
clap = { version = "4", features = ["derive"] }
uniffi_bindgen = "=0.32.0"
