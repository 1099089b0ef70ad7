[package]
name = "add_fields"
version = "0.1.0"
edition = "2021"
publish = false

[dependencies]
chrono = { version = "=0.4.45", default-features = false, features = ["std"] }
indexmap = { version = "=2.14.2", default-features = false, features = ["std", "serde"] }
serde = { version = "=1.0.229", features = ["derive"] }
toml = { version = "=1.1.8", features = ["preserve_order"] }
