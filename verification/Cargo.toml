[package]
name = "notice_feed"
version = "0.1.0"
edition = "2021"
publish = false

[dependencies]
anyhow = "*"
chrono = "*"
clap = { version = "*", features = ["derive"] }
reqwest = { version = "*", default-features = false, features = ["blocking"] }
rss = "*"
scraper = "*"
serde_json = "*"
tokio = { version = "*", features = ["rt-multi-thread", "macros", "time"] }
url = "*"
