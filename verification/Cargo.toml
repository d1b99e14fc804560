[package]
name = "cargo_modules"
version = "0.1.0"
edition = "2021"
publish = false

[dependencies]
anyhow = "1"
log = "0.4"
structopt = "0.3"
yansi = "*"
