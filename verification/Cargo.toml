[package]
name = "cybergrape"
version = "0.1.0"
edition = "2021"
publish = false

[dependencies]
clap = { version = "*", features = ["derive"] }
env_logger = "*"
log = "*"
rand = "0.8"
serial2 = "*"
spin_sleep = "*"

[dev-dependencies]
nom = "7"
