[package]
name = "x1331"
version = "0.1.0"
edition = "2021"
publish = false

[dependencies]
sha2 = "=0.10.9"
hex = "=0.4.3"
bitcoin = "=0.32.102"
serde = { version = "=1.0.229", features = ["derive"] }
serde_json = "=1.0.154"
csv = "=1.4.0"
rand = "=0.10.3"
reqwest = { version = "0.12", default-features = false, features = ["blocking", "json"] }
