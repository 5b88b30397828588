[package]
name = "ocv_patch"
version = "0.1.0"
edition = "2021"
publish = false

[dependencies]
anyhow = "*"
liberty-db = "*"
ordered-float = "*"
serde = { version = "*", features = ["derive"] }
serde_json = "*"
serde_yaml = "*"
