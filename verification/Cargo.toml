[package]
name = "waveview"
version = "0.1.0"
edition = "2021"
publish = false

[dependencies]
vcd = "0.7"
indexmap = "2"
clap = { version = "4", features = ["derive"] }
