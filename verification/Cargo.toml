[package]
name = "covey_of_worlds"
version = "0.1.0"
edition = "2021"
publish = false

[dependencies]
futures-lite = "2"
image = { version = "0.24", default-features = false }
serde = { version = "1", features = ["derive"] }
serde_json = "1"
thiserror = "1"
