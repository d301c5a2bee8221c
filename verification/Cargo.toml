[package]
name = "sovereign"
version = "0.1.0"
edition = "2021"
publish = false

[dependencies]
anyhow = "1"
automerge = "*"
chrono = { version = "0.4", features = ["serde"] }
clap = { version = "4", features = ["derive"] }
colored = "*"
dirs = "*"
futures = "0.3"
hex = "0.4"
hostname = "*"
ignore = "0.4"
notify = "*"
reqwest = { version = "*", features = ["json", "stream"] }
rusqlite = { version = "*", features = ["bundled"] }
rustyline = "*"
serde = { version = "1", features = ["derive"] }
serde_json = "1"
sha2 = "0.10"
tokio = { version = "1", features = ["full"] }
tokio-tungstenite = "*"
uuid = { version = "1", features = ["v4"] }
