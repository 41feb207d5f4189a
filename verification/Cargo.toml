[package]
name = "jmfm"
version = "0.1.0"
edition = "2021"
publish = false

[dependencies]
image = "*"
hematite-nbt = "*"
serde = { version = "*", features = ["derive"] }
clap = { version = "*", features = ["derive"] }
confy = "*"
env_logger = "*"
indicatif = "*"
log = "*"
rayon = "*"
