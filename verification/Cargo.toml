[package]
name = "ere"
version = "0.1.0"
edition = "2021"
publish = false

[dependencies]
fastrand = "*"
pico-args = "*"
tempfile = "*"
thiserror = "*"
walkdir = "*"
