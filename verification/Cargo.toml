[package]
name = "samloader"
version = "0.1.0"
edition = "2021"
publish = false

[dependencies]
aes = "*"
fast-md5 = "*"
lz4_flex = "*"
memmap2 = "*"
