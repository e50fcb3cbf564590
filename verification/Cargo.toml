[package]
name = "vigil"
version = "0.1.0"
edition = "2021"
publish = false

[dependencies]
chrono = { version = "0.4", features = ["serde"] }
clap = { version = "4", features = ["derive"] }
dirs = "6"
futures-core = "0.3"
serde = { version = "1", features = ["derive"] }
serde_json = "1"
