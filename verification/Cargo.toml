[package]
name = "cancersongpaster"
version = "0.1.0"
edition = "2021"
publish = false

[dependencies]
arboard = { version = "3", default-features = false }
clap = { version = "4", features = ["derive"] }
rand = "0.8"
rdev = "0.5"
single-instance = "0.3"
thiserror = "2"
