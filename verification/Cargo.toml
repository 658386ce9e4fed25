[package]
name = "voice_relay"
version = "0.1.0"
edition = "2021"
publish = false

[dependencies]
anyhow = "*"
axum = { version = "*", features = ["ws"] }
hound = "*"
reqwest = { version = "*", default-features = false, features = ["json", "multipart", "rustls-tls"] }
serde = { version = "*", features = ["derive"] }
tempfile = "*"
tokio = { version = "*", features = ["macros", "rt-multi-thread", "net", "time", "fs"] }
tower = "*"
tower-http = { version = "*", features = ["cors", "fs", "set-header"] }
tracing = "*"
tracing-subscriber = "*"
