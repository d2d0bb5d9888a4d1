[package]
name = "cf-app-log-detector"
version = "0.1.0"
edition = "2021"
publish = false

[dependencies]
chrono = { version = "0.4", default-features = false, features = ["std"] }
clap = "2"
nom = "4"
strip-ansi-escapes = "0.1"
