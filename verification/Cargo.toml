[package]
name = "solutions"
version = "0.1.0"
edition = "2021"
publish = false

[dependencies]
heapless = "0.8"
libm = "0.2"
serde = { version = "1", features = ["derive"] }
serde_json = "1"
