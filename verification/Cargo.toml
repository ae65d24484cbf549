[package]
name = "rsqlite"
version = "0.1.0"
edition = "2021"
publish = false

[dependencies]
binrw = "0.14"
