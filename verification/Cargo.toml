[package]
name = "vector_plus"
version = "0.1.0"
edition = "2021"
publish = false

[dependencies]
chrono = "*"
clap = { version = "*", features = ["derive"] }
colored = "*"
dialoguer = "*"
eyre = "*"
tokio = { version = "*", default-features = false, features = ["rt", "macros"] }

[dev-dependencies]
serde_json = "*"
