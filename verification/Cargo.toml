[package]
name = "robot_world"
version = "0.1.0"
edition = "2021"
publish = false

[dependencies]
clap = { version = "*", features = ["derive"] }
crossterm = { version = "*", features = ["event-stream"] }
env_logger = "*"
futures-util = "*"
log = "*"
ratatui = "*"
tokio = { version = "*", features = ["macros", "rt-multi-thread", "sync", "time"] }
zbus = { version = "*", default-features = false, features = ["tokio"] }
