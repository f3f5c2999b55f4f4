[package]
name = "rss_reader"
version = "0.1.0"
edition = "2021"
publish = false

[dependencies]
chrono = "*"
clap = { version = "*", features = ["derive"] }
dirs = "*"
feed-rs = "*"
html2text = "*"
open = "*"
reqwest = { version = "*", default-features = false, features = ["blocking", "rustls-tls"] }
url = "*"

[dev-dependencies]
serde_json = "*"
