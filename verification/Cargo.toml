[package]
name = "minidb"
version = "0.1.0"
edition = "2021"
publish = false

[dependencies]
byteorder = "1"
clap = "2.33"
log = "0.4"
simple_logger = "1"
