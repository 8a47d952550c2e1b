[package]
name = "ransaq"
version = "0.1.0"
edition = "2021"
publish = false

[dependencies]
tokio = { version = "*", features = ["macros", "rt-multi-thread"] }
async-channel = "*"
futures-util = "*"
reqwest = { version = "*", default-features = false }
scraper = "*"
serde = { version = "*", features = ["derive"] }
serde_json = "*"
