[package]
name = "quote_stream"
version = "0.1.0"
edition = "2021"
publish = false

[dependencies]
bincode = "1.3.3"
clap = { version = "4", features = ["derive"] }
crossbeam = "0.8"
ctrlc = "3"
env_logger = "0.11"
log = "0.4"
rand = "0.10"
