[package]
name = "folder_compare"
version = "0.1.0"
edition = "2021"
publish = false

[dependencies]
anyhow = "*"
async-trait = "*"
clap = "*"
indicatif = "*"
rayon = "*"
serde = { version = "*", features = ["derive"] }
serde_json = "*"
sha1 = "0.6"
tokio = { version = "*", features = ["rt-multi-thread", "macros", "time"] }
walkdir = "*"
