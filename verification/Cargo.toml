[package]
name = "sortmail"
version = "0.1.0"
edition = "2021"
publish = false

[dependencies]
anyhow = "1"
clap = { version = "4", features = ["derive"] }
maildir = "*"
regex = "1"
serde = { version = "1", features = ["derive"] }
toml = { version = "*", features = ["preserve_order"] }
