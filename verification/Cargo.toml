[package]
name = "chord_fingerings"
version = "0.1.0"
edition = "2021"
publish = false

[dependencies]
itertools = "*"
num-derive = "*"
num-traits = "*"
serde = { version = "*", features = ["derive"] }
serde_json = "*"
strum = "*"
strum_macros = "*"
