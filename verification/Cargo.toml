[package]
name = "pipeline"
version = "0.1.0"
edition = "2021"
publish = false

[dependencies]
anyhow = "*"
clap = { version = "*", features = ["derive"] }
flate2 = "*"
futures-util = "*"
lapin = "*"
reqwest = { version = "*", default-features = false }
serde = { version = "*", features = ["derive"] }
serde_json = "*"
tokio = { version = "*", features = ["macros", "rt-multi-thread", "time"] }
