[package]
name = "reddit_scrape"
version = "0.1.0"
edition = "2021"
publish = false

[dependencies]
clap = "2"
csv = "1"
curl = "0.4"
serde = { version = "1", features = ["derive"] }
serde_json = "1"
time = "0.1"
url = "2"
