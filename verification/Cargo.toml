[package]
name = "psi_tests"
version = "0.1.0"
edition = "2021"
publish = false

[dependencies]
url = "*"
reqwest = { version = "*", default-features = false, features = ["json"] }
tokio = { version = "*", features = ["macros", "rt-multi-thread"] }
futures = "*"
chrono = "*"
clap = "*"
csv = "*"
serde = { version = "*", features = ["derive"] }
serde_json = "*"
