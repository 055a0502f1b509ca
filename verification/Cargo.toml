[package]
name = "random-pickfile"
version = "0.1.0"
edition = "2021"
publish = false

[dependencies]
chrono = "0.4"
config = { version = "0.13", default-features = false, features = ["ini"] }
futures = "0.3"
once_cell = "1"
rand = "0.8"
serde = "1"
serde_derive = "1"
serde_json = "1"
tokio = { version = "1", features = ["rt-multi-thread", "macros", "fs", "sync"] }
walkdir = "2"
zip = "0.6"
