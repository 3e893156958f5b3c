[package]
name = "vcode"
version = "0.1.0"
edition = "2021"
publish = false

[dependencies]
regalloc2 = "=0.1.3"
