[package]
name = "junit_notify"
version = "0.1.0"
edition = "2021"
publish = false

[dependencies]
xml-rs = "*"
clap = "*"
hotwatch = "*"
log = "*"
notify-rust = "*"
simple_logger = "*"
