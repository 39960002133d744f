[package]
name = "gfcgi"
version = "0.5.0"
edition = "2021"
publish = false

[dependencies]
byteorder = "1"
