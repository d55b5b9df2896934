[package]
name = "binding_store"
version = "0.1.0"
edition = "2021"
publish = false

[dependencies]
mongodb = "*"
serde = { version = "*", features = ["derive"] }
tokio = { version = "*", features = ["macros", "rt-multi-thread"] }
