[package]
name = "chat_stats"
version = "0.1.0"
edition = "2021"
publish = false

[dependencies]
chrono = { version = "*", default-features = false, features = ["std", "serde"] }
clap = { version = "*", features = ["derive"] }
crossbeam = "*"
emojis = "*"
rayon = "*"
serde = { version = "*", features = ["derive"] }
serde_json = "*"
unicode-segmentation = "*"
