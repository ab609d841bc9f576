[package]
name = "verseapp"
version = "0.1.0"
edition = "2021"
publish = false

[dependencies]
image = { version = "0.24", default-features = false }
serde = { version = "1", features = ["derive"] }
serde_json = "1"
tokio = { version = "1", features = ["rt", "rt-multi-thread"] }
zip = { version = "0.6", default-features = false, features = ["deflate"] }
dirs = "6"
