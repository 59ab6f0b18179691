[package]
name = "xelis_common"
version = "0.1.0"
edition = "2021"
publish = false

[dependencies]
indexmap = "2"
regex = "1"
serde = { version = "1", features = ["derive"] }
