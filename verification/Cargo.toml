[package]
name = "rust_tar"
version = "0.1.0"
edition = "2021"
publish = false

[dependencies]
bzip2 = "*"
flate2 = "1"
regex = "1"
tar = "0.4"
uzers = "*"
walkdir = "2"
xz2 = "0.1"
