[package]
name = "trove"
version = "0.1.0"
edition = "2021"
publish = false

[dependencies]
llvm-sys = "*"
