[package]
name = "kirby"
version = "0.1.0"
edition = "2021"
publish = false

[dependencies]
argparse = "*"
flate2 = "1"
rayon = "1"
regex = "1"
serde = { version = "1", features = ["derive"] }
serde_json = "1"
