[package]
name = "media_library"
version = "0.1.0"
edition = "2021"
publish = false

[dependencies]
chrono = "0.4"
md5 = "*"
once_cell = "1"
regex = "1"
reqwest = "*"
rfd = "*"
rusqlite = "*"
serde = { version = "1", features = ["derive"] }
serde_json = "1"
tokio = { version = "1", features = ["rt", "rt-multi-thread"] }
walkdir = "2"
