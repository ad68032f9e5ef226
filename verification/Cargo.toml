[package]
name = "oco_lite_matchup"
version = "0.1.0"
edition = "2021"
publish = false

[dependencies]
chrono = "0.4"
clap = { version = "4", features = ["derive"] }
env_logger = "0.10"
hex = "0.4"
indicatif = { version = "0.17", features = ["rayon"] }
itertools = "0.12"
log = "0.4"
ndarray = "0.15"
netcdf = "0.8"
num-traits = "0.2"
rayon = "1"
serde = { version = "1", features = ["derive"] }
sha2 = "0.10"
thiserror = "1"
toml = "0.8"
