[package]
name = "macronizer"
version = "0.1.0"
edition = "2021"
publish = false

[dependencies]
actually_beep = "*"
anyhow = "1"
clap = { version = "4", features = ["derive"] }
config = { version = "*", default-features = false, features = ["toml"] }
dirs = "*"
home = "*"
rdev = { version = "*", features = ["serialize"] }
serde = { version = "1", features = ["derive"] }
toml = "*"
