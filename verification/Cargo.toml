[package]
name = "atom"
version = "0.1.0"
edition = "2021"
publish = false

[dependencies]
clap = { version = "4", features = ["derive"] }
derive_more = { version = "*", features = ["display", "error"] }
