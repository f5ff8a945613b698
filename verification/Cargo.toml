[package]
name = "intmux"
version = "0.1.0"
edition = "2021"
publish = false

[dependencies]
clap = { version = "4", features = ["derive"] }
sha2 = "0.10"
thiserror = "2"
