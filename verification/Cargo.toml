[package]
name = "karga"
version = "0.1.0"
edition = "2021"
publish = false

[dependencies]
regex = "1"
rss = "2"
atom_syndication = "0.12"
scraper = "*"
chrono = "0.4"
serde = { version = "1", features = ["derive"] }
serde_json = "1"
dirs = "*"
tokio = { version = "1", features = ["full"] }
reqwest = { version = "0.12", default-features = false, features = ["rustls-tls"] }
ratatui = "0.29"
crossterm = "0.28"
notify-rust = "4"
