[package]
name = "dotty"
version = "0.1.0"
edition = "2021"
publish = false

[dependencies]
anyhow = "1"
clap = { version = "4", features = ["derive"] }
colored = "*"
dirs = "*"
mlua = { version = "0.10", features = ["lua54", "vendored"] }
thiserror = "*"
