[package]
name = "confignode"
version = "0.1.0"
edition = "2021"
publish = false

[dependencies]
clap = { version = "4", features = ["derive"] }
diff = "0.1"
string-builder = "*"
