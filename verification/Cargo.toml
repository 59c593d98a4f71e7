[package]
name = "pacman_lite"
version = "0.1.0"
edition = "2021"
publish = false

[dependencies]
rand = "0.8"
clap = { version = "4", features = ["derive"] }
bevy = { version = "0.19", default-features = false, features = ["bevy_state"] }
