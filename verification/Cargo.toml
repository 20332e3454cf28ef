[package]
name = "skel"
version = "0.1.0"
edition = "2021"
publish = false

[dependencies]
anyhow = "1"
clap = { version = "4", features = ["derive"] }
colored = "2"
dialoguer = "0.11"
dirs = "5"
serde_yaml = "0.9"
skim = "0.10"
tempdir = "0.3"
walkdir = "2"
