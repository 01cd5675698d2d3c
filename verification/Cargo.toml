[package]
name = "ore_pool"
version = "0.1.0"
edition = "2021"
publish = false

[dependencies]
solana-program = "1.18"
ore-utils = { version = "*", default-features = false }
thiserror = "1"
num_enum = "0.7"
log = "0.4"
env_logger = "0.11"
tokio = { version = "1", features = ["rt-multi-thread", "sync", "time", "macros"] }
actix-web = { version = "4", default-features = false, features = ["macros"] }
