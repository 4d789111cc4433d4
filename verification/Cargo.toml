[package]
name = "tdgrand"
version = "0.1.0"
edition = "2021"
publish = false

[dependencies]
log = "0.4"
once_cell = "1"
serde_json = "1"
uuid = { version = "1", features = ["v4"] }
