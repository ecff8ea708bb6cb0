[package]
name = "noticeflow"
version = "0.1.0"
edition = "2021"
publish = false

[dependencies]
regex = "1"
serde = { version = "1", features = ["derive"] }
serde_json = "1"
chrono = "0.4"
dirs = "*"
uuid = { version = "1", features = ["v4"] }
plist = "1"
base64 = "0.22"
rusqlite = { version = "*", features = ["bundled"] }
walkdir = "2"
libc = "0.2"
objc2-foundation = "*"
