[package]
name = "rust_svg"
version = "0.1.0"
edition = "2021"

[dependencies]
indoc = "2"
serde = { version = "1", features = ["derive"] }
serde_json = "1"
