[package]
name = "dispatching"
version = "0.1.0"
edition = "2021"
publish = false

[dev-dependencies]
tokio = { version = "1", default-features = false, features = ["rt"] }
