[package]
name = "strella"
version = "0.1.0"
edition = "2021"
publish = false

[dependencies]
lualexer = "*"
clap = { version = "4", features = ["derive"] }
