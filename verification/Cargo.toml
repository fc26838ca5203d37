[package]
name = "undermoon"
version = "0.1.0"
edition = "2021"
publish = false

[dependencies]
caseless = "0.2"
chrono = "0.4"
serde = { version = "1", features = ["derive"] }
actix-web = "4"
