[package]
name = "gini"
version = "0.2.0"
edition = "2021"
publish = false

[dependencies]
sha1 = "0.10.6"
hex = "0.4.3"
anyhow = "1.0.75"
chrono = "0.4"
clap = { version = "4.4.8", features = ["derive"] }
