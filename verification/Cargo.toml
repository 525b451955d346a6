[package]
name = "tvguide"
version = "0.1.0"
edition = "2021"
publish = false

[dependencies]
chrono = "*"
scraper = "*"
reqwest = { version = "*", default-features = false, features = ["blocking"] }
structopt = "*"
