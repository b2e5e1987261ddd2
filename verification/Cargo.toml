[package]
name = "train_gen"
version = "0.1.0"
edition = "2021"
publish = false

[dependencies]
clap = "*"
csv = "*"
log = "*"
postgres = "*"
pretty_env_logger = "*"
rand = "*"
rand_distr = "*"
serde = { version = "*", features = ["derive"] }
toml = "*"
