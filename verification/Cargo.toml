[package]
name = "zen"
version = "0.1.0"
edition = "2021"
publish = false

[dependencies]
uuid = { version = "1", features = ["v4", "serde"] }
chrono = { version = "0.4", features = ["serde"] }
rand = "0.8"
nucleo-matcher = "0.3"
serde = { version = "1", features = ["derive"] }
serde_json = "1"
dirs-next = "2"
crossterm = "0.28"
ratatui = "0.29"
clap = { version = "4", features = ["derive"] }
