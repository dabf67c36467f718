[package]
name = "cronch"
version = "0.1.0"
edition = "2021"
publish = false

[dependencies]
chrono = { version = "0.4", default-features = false, features = ["clock", "std"] }
cron = "*"
uuid = { version = "1", features = ["v4"] }
shell-words = "1"
serde = { version = "1", features = ["derive"] }
serde_json = "1"
rusqlite = { version = "*", features = ["bundled"] }
tokio = { version = "1", features = ["rt-multi-thread", "sync", "time", "process", "macros"] }
anyhow = "1"
directories = "*"
auto-launch = "*"
log = "0.4"
env_logger = "*"
single-instance = "*"
image = { version = "*", default-features = false, features = ["png"] }
tray-icon = "*"
