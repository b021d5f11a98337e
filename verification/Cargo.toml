[package]
name = "dialasm"
version = "0.1.0"
edition = "2021"
publish = false

[dependencies]
anyhow = "1"
pest = "2"
thiserror = "2"
