[package]
name = "dm2xcod"
version = "0.1.0"
edition = "2021"
publish = false

[dependencies]
base64 = "*"
zip = "*"
clap = { version = "*", features = ["derive"] }
docx-rust = "*"

[dev-dependencies]
hard-xml = "*"
