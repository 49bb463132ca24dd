[package]
name = "pedoni"
version = "0.1.0"
edition = "2021"
publish = false

[dependencies]
fastrand = "=2.5.0"
thin-vec = "=0.2.21"
serde = { version = "=1.0.229", features = ["derive"] }
toml = "=1.1.7"
