[package]
name = "cookbook-qualify"
version = "0.1.0"
edition = "2021"
publish = false

[dependencies]
csv = "1"
forjar = { version = "*", default-features = false }
serde = { version = "1", features = ["derive"] }
serde_yaml_ng = "*"
