[package]
name = "sbmm"
version = "0.1.0"
edition = "2021"
publish = false

[dependencies]
serde = { version = "1", features = ["derive"] }
serde_json = "1"
thiserror = "2"
tracing = "0.1"
rusqlite = { version = "*", features = ["bundled"] }
zip = { version = "*", default-features = false, features = ["deflate"] }
walkdir = "2"
sevenz-rust2 = "*"
unrar = "*"
keyring = "3"
tokio = { version = "1", features = ["rt", "time", "macros", "sync"] }
reqwest = { version = "0.12", default-features = false, features = ["rustls-tls", "stream"] }
futures-util = "0.3"
discord-rich-presence = "*"
