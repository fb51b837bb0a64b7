[package]
name = "agent_overlay"
version = "0.1.0"
edition = "2021"
publish = false

[dependencies]
dirs = "*"
serde = { version = "*", features = ["derive"] }
serde_json = "*"
toml = "*"
notify = "*"
notify-debouncer-mini = "*"
