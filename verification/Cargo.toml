[package]
name = "photo-hat-engine"
version = "0.1.0"
edition = "2021"
publish = false

[dependencies]
anyhow = "1"
chrono = "0.4"
clap = { version = "4", features = ["derive"] }
ctrlc = "3"
fs2 = "0.4"
rusqlite = { version = "*", features = ["bundled"] }
rustix = { version = "*", features = ["fs"] }
serde = { version = "1", features = ["derive"] }
serde_json = "1"
sha2 = "0.10"
unicode-normalization = "0.1"
uuid = { version = "1", features = ["v4"] }
walkdir = "2"
