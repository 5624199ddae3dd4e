[package]
name = "incremental_cargo_update"
version = "0.1.0"
edition = "2021"
publish = false

[dependencies]
cargo-lock = "*"
anyhow = "*"
clap = { version = "*", features = ["derive"] }
log = "*"
simple_logger = "*"
tempdir = "*"
