[package]
name = "emergency_backup"
version = "0.1.0"
edition = "2021"
publish = false

[dependencies]
auto-launch = "*"
chrono = "*"
clap = "4"
mouse_position = "*"
num_cpus = "*"
rodio = "0.17"
rusb = "*"
serde = { version = "*", features = ["derive"] }
serde_json = "*"
sysinfo = "0.32"
