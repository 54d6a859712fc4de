[package]
name = "apollo_music"
version = "0.1.0"
edition = "2021"
publish = false

[dependencies]
strsim = "0.11"
clap = { version = "4", features = ["derive"] }
colored = "2"
config = { version = "*", default-features = false, features = ["toml"] }
csv = "1"
fs_extra = "1"
human_bytes = "0.4"
indicatif = "0.17"
inquire = "0.7"
lofty = "*"
rusqlite = "*"
serde = { version = "1", features = ["derive"] }
shellexpand = "3"
symphonia = "0.5"
walkdir = "2"
