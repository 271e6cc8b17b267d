[package]
name = "niceview_lib"
version = "0.1.0"
edition = "2021"
publish = false

[dependencies]
embedded-io = "0.6"
trouble-host = "*"
embedded-graphics = "0.8"
proc-macro2 = "1"
quote = "1"
rust-format = "0.3"
