[package]
name = "todo_txt"
version = "0.1.0"
edition = "2021"
publish = false

[dependencies]
clap = { version = "*", features = ["derive"] }
flexi_logger = "*"
log = "*"
