[package]
name = "ets2_tool"
version = "0.1.0"
edition = "2021"
publish = false

[dependencies]
decrypt_truck = "*"
regex = "1"
serde = { version = "1", features = ["derive"] }
serde_json = "1"
dirs = "*"
chrono = "0.4"
base64 = "0.22"
walkdir = "2"
zip = "*"
fs_extra = "1"
uuid = { version = "1", features = ["v4"] }
once_cell = "1"
