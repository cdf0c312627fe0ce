[package]
name = "ccplus"
version = "0.1.0"
edition = "2021"
publish = false

[dependencies]
mexprp = { version = "*", default-features = false }
