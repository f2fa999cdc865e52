[package]
name = "binfiddle"
version = "0.1.0"
edition = "2021"
publish = false

[dependencies]
atty = "*"
byteorder = "*"
clap = { version = "*", features = ["derive"] }
encoding_rs = "*"
hex = "*"
memchr = "*"
rayon = "*"
regex = "*"
serde = { version = "*", features = ["derive"] }
serde_json = "*"
serde_yaml = "*"
