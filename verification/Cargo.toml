[package]
name = "lume"
version = "0.1.0"
edition = "2021"
publish = false

[dependencies]
meshopt = "*"
tobj = "*"
memmap2 = "*"
anyhow = "*"
