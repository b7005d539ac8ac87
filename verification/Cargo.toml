[package]
name = "elongate"
version = "0.1.0"
edition = "2021"
publish = false

[dependencies]
anyhow = "*"
clap = { version = "*", features = ["derive"] }
execute = "*"
twelf = { version = "*", features = ["env", "toml", "clap"] }
