[package]
name = "flyingv"
version = "0.1.0"
edition = "2021"
publish = false

[dependencies]
chrono = "0.4"
clap = "2"
dotenv = "0.15"
globset = "0.4"
hyper = "0.10"
notify = "4"
pulldown-cmark = { version = "0.9", default-features = false }
regex = "1"
serde = { version = "1", features = ["derive"] }
serde_json = "1"
tempdir = "0.3"
tera = "1"
walkdir = "2"
