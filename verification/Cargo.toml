[package]
name = "cargo-dfu"
version = "0.1.0"
edition = "2021"
publish = false

[dependencies]
cargo-project = "*"
clap = { version = "3", features = ["derive"] }
colored = "*"
dfu-libusb = "*"
goblin = "*"
maplit = "*"
pretty_env_logger = "*"
rusb = "*"
