[package]
name = "ssh_bookmarker"
version = "0.1.0"
edition = "2021"

[dependencies]
regex = "1"
error-chain = { version = "0.12", default-features = false }
docopt = "0.7"
rustc-serialize = "0.3"
