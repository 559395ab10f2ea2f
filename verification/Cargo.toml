[package]
name = "gmusic"
version = "0.1.0"
edition = "2021"
publish = false

[dependencies]
url = "2"
serde = { version = "1", features = ["derive"] }
serde_json = "1"
thiserror = "2"
tracing = "0.1"
tracing-subscriber = { version = "0.3", features = ["env-filter", "fmt"] }
rusqlite = { version = "*", features = ["bundled"] }
libc = "0.2"
reqwest = { version = "*", default-features = false, features = ["blocking"] }
