[package]
name = "acrf"
version = "0.1.0"
edition = "2021"
publish = false

[dependencies]
anyhow = "1"
encoding_rs = "0.8"
lopdf = "*"
regex = "1"
rust_xlsxwriter = "*"
serde = { version = "1", features = ["derive"] }
