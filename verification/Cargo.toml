[package]
name = "spellclash"
version = "0.1.0"
edition = "2021"
publish = false

[dependencies]
regex = "1"
uuid = "1"
clap = { version = "4", features = ["derive"] }
