[package]
name = "linetally"
version = "0.1.0"
edition = "2021"
publish = false

[dependencies]
bytecount = "*"
clap = { version = "*", features = ["derive"] }
crossbeam = "*"
ignore = "*"
num-format = "*"
regex = "*"
serde = { version = "*", features = ["derive"] }
serde_json = "*"
tabled = "*"
