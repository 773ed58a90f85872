[package]
name = "cork"
version = "0.2.4"
edition = "2021"
publish = false

[dependencies]
pest = "2"
clap = { version = "3", features = ["derive"] }
rustyline = "9"
home = "0.5"
serde = { version = "1", features = ["derive"] }
serde_yaml = "0.8"
colored = "2"
anyhow = "1"
thiserror = "1"
strum = { version = "0.24", features = ["derive"] }
