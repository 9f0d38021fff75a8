[package]
name = "pomodoro_timer"
version = "0.1.0"
edition = "2021"
publish = false

[dependencies]
chrono = "0.4"
comfy-table = "*"
dirs = "*"
serde = { version = "1", features = ["derive"] }
structopt = "0.3"
toml = "*"
