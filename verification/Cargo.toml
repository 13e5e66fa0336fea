[package]
name = "wn_core"
version = "0.1.0"
edition = "2021"
publish = false

[dependencies]
sha2 = "*"
flate2 = "*"
globset = "*"
walkdir = "*"
log = "*"
fern = { version = "*", features = ["colored"] }
clap = { version = "*", features = ["derive"] }
