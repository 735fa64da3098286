[package]
name = "wglog"
version = "0.1.0"
edition = "2021"
publish = false

[dependencies]
anyhow = "1"
chrono = "0.4"
structopt = "0.3"
tai64 = "*"
