[package]
name = "aze"
version = "0.1.0"
edition = "2021"
publish = false

[dependencies]
anyhow = "1"
chrono = "0.4"
clap = { version = "3", features = ["derive"] }
colored = "2"
confy = "*"
dialoguer = "0.10"
diesel = { version = "2", features = ["sqlite", "r2d2"] }
directories-next = "2"
serde = { version = "1", features = ["derive"] }
serde_json = "1"
uuid = { version = "1", features = ["v4"] }
