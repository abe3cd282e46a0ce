[package]
name = "gsync"
version = "0.1.0"
edition = "2021"
publish = false

[dependencies]
base64 = "0.13"
mime_guess = "2"
rand = "0.8"
sha2 = "0.9"
serde = { version = "1", features = ["derive"] }
serde_json = "1"
serde_qs = "0.8"
chrono = "0.4"
clap = "2"
rusqlite = "0.25"
reqwest = { version = "0.11", features = ["blocking", "json", "multipart"] }
actix-web = "3"
actix-server = "1"
