[package]
name = "gamecore"
version = "0.1.0"
edition = "2021"
publish = false

[dependencies]
rand = "0.8"
rmp = "*"
rmpv = "*"
ws = "*"
reqwest = { version = "0.11", default-features = false, features = ["blocking", "json"] }
serde = { version = "1", features = ["derive"] }
serde_yaml = "*"
serde_json = "1"
