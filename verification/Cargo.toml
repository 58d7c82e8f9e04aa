[package]
name = "quip"
version = "0.2.0"
edition = "2021"
publish = false

[dependencies]
proc-macro2 = "=1.0.107"
