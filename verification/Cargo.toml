[package]
name = "yclass"
version = "0.1.0"
edition = "2021"
publish = false

[dependencies]
dirs = "5"
eframe = { version = "=0.21.3", default-features = false, features = ["glow"] }
eyre = "=0.6.14"
fastrand = "=1.9.0"
libloading = "=0.8.9"
memflex = { version = "=0.8.4", features = ["external"] }
parking_lot = "=0.12.5"
rayon = "=1.12.0"
ron = "0.8"
serde = { version = "1", features = ["derive"] }
toml = "0.7"
