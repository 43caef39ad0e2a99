[package]
name = "telescope"
version = "0.1.0"
edition = "2021"
publish = false

[dependencies]
unicode-xid = "*"
rustc_apfloat = "*"
clap = "*"
rustyline = "*"
