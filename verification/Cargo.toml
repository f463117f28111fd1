[package]
name = "tmsu"
version = "0.1.0"
edition = "2021"
publish = false

[dependencies]
regex = "1"
path-clean = "0.1"
chrono = "0.4"
rusqlite = "0.24"
