[package]
name = "bedrock_up"
version = "0.1.0"
edition = "2021"
publish = false

[dependencies]
shellexpand = "*"
serde_json = "*"
clap = { version = "*", features = ["derive"] }
reqwest = { version = "*", default-features = false, features = ["blocking", "json"] }
zip = { version = "*", default-features = false }
