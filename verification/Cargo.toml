[package]
name = "battleship"
version = "0.1.0"
edition = "2021"
publish = false

[dependencies]
rumqttc = { version = "*", default-features = false }
tokio = { version = "1", features = ["macros", "rt-multi-thread", "signal", "sync"] }
serde = { version = "1", features = ["derive"] }
serde_json = "1"
rocket = { version = "0.5", features = ["json"] }
