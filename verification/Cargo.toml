[package]
name = "my_esp_project"
version = "0.1.0"
edition = "2021"
publish = false

[dependencies]
embassy-executor = { version = "=0.10.0", features = ["platform-std", "executor-thread"] }
embassy-time = { version = "=0.5.1", features = ["std"] }
