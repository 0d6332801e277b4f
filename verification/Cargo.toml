[package]
name = "divedns"
version = "0.1.0"
edition = "2021"
publish = false

[dependencies]
idna = "1"
clap = { version = "4", features = ["derive"] }
derive_more = { version = "*", features = ["display", "error", "from"] }
miette = { version = "7", features = ["fancy"] }
schemars = "*"
serde = { version = "1", features = ["derive"] }
