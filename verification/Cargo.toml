[package]
name = "multi_instance"
version = "0.1.0"
edition = "2021"
publish = false

[dependencies]
sysinfo = "*"
uuid = { version = "*", features = ["v4"] }
chrono = "*"
dirs = "*"
once_cell = "*"
serde = { version = "*", features = ["derive"] }
serde_json = "*"
