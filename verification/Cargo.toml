[package]
name = "columnar_sstable"
version = "0.1.0"
edition = "2021"
publish = false

[dependencies]
zstd = { version = "0.13", default-features = false, features = ["experimental"] }
