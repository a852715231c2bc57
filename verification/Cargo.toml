[package]
name = "birdwatcher"
version = "0.1.0"
edition = "2021"
publish = false

[dependencies]
docopt = "*"
postgres = "*"
serde = "*"
serde_derive = "*"
