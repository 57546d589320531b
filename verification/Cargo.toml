[package]
name = "omavision-core"
version = "0.1.0"
edition = "2021"
publish = false

[dependencies]
regex = "1"
unicode-normalization = "0.1"
toml = "0.8"
serde = { version = "1", features = ["derive"] }
serde_json = "1"
ureq = { version = "3", features = ["json"] }
walkdir = "2"
dirs = "6"
notify = "8"
clap = { version = "4", features = ["derive"] }
anyhow = "1"
log = "0.4"
