[package]
name = "awc_client"
version = "0.1.0"
edition = "2021"
publish = false

[dependencies]
serde = { version = "1", features = ["derive"] }
serde_json = "1"
clap = "3"
xdg = "2"
serde_dhall = "0.12"
