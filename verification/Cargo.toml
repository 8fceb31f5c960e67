[package]
name = "tune"
version = "0.1.0"
edition = "2021"
publish = false

[dependencies]
idsp = "*"
cordic = "*"
fixed = "*"
midly = "*"
hound = "*"
anyhow = "*"
log = "*"
clap = "*"
fern = "*"
chrono = "*"
