[package]
name = "athira"
version = "0.1.0"
edition = "2021"
publish = false

[dependencies]
clap = { version = "*", features = ["derive"] }
colored = "*"
crossterm = "*"
parking_lot = "*"
serde = { version = "*", features = ["derive"] }
serde_yaml = "*"
thiserror = "*"
