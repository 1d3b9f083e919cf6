[package]
name = "findex"
version = "0.1.0"
edition = "2021"
publish = false

[dependencies]
bytesize = "*"
clap = { version = "*", features = ["derive"] }
colored = "*"
finalfusion = "*"
regex = "*"
rusqlite = { version = "*", features = ["bundled"] }
walkdir = "*"
