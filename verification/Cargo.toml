[package]
name = "arc_rs"
version = "0.1.0"
edition = "2021"
publish = false

[dependencies]
indexmap = "2"
pest = "2"
serde_json = "1"
