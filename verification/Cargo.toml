[package]
name = "project_soap"
version = "0.1.0"
edition = "2021"
publish = false

[dependencies]
clap = { version = "4", features = ["derive"] }
dirs = "*"
enum_dispatch = "*"
hound = "3"
reqwest = { version = "*", features = ["blocking"] }
serde = { version = "1", features = ["derive"] }
serde_json = "1"
vosk = "*"
zip = { version = "*", default-features = false, features = ["deflate"] }
