[package]
name = "clf"
version = "0.1.0"
edition = "2021"
publish = false

[dependencies]
anyhow = "1"
serde = { version = "1", features = ["derive"] }
serde-xml-rs = "*"
rkyv = "0.7"
bytecheck = "0.6"
