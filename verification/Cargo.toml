[package]
name = "dynamic-loader-cache"
version = "0.1.0"
edition = "2021"
publish = false

[dependencies]
arrayvec = "0.7"
memmap2 = "0.9"
nom = "7"
thiserror = "1"
