[package]
name = "l2_handler"
version = "0.1.0"
edition = "2021"
publish = false

[dependencies]
ipnet = "*"
clap = { version = "*", features = ["derive"] }
log = "*"
simple_logger = "*"
reqwest = { version = "*", default-features = false, features = ["blocking"] }
