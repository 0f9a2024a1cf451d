[package]
name = "levchat"
version = "0.1.0"
edition = "2021"
publish = false

[dependencies]
lopdf = "*"
uuid = { version = "*", features = ["v4"] }
rand = "*"
serde = { version = "*", features = ["derive"] }
serde_json = "*"
tokio = { version = "*", features = ["rt-multi-thread", "macros", "net", "sync", "time", "io-util"] }
tokio-tungstenite = "*"
futures = "*"
portable-pty = "*"
reqwest = { version = "*", default-features = false, features = ["json"] }
dirs = "*"
