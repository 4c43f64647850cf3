[package]
name = "clockhand"
version = "0.1.0"
edition = "2021"
publish = false

[dependencies]
poise = "0.6"
serde = { version = "1", features = ["derive"] }
serde_yml = "*"
tokio = { version = "1", features = ["macros", "rt-multi-thread", "sync", "time"] }
