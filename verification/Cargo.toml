[package]
name = "game_launcher"
version = "0.1.0"
edition = "2021"
publish = false

[dependencies]
chrono = { version = "0.4", default-features = false, features = ["clock"] }
futures-util = "0.3"
reqwest = { version = "0.11", default-features = false, features = ["json", "stream", "rustls-tls"] }
serde = { version = "1", features = ["derive"] }
serde_json = "1"
winreg = "*"
zip = { version = "0.6", default-features = false, features = ["deflate"] }
