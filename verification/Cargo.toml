[package]
name = "nios2asm"
version = "1.0.0"
edition = "2021"
publish = false

[dependencies]
regex = "1"
