[package]
name = "xchannel"
version = "5.2.0"
edition = "2021"
publish = false

[dependencies]
libc = "0.2"
memmap2 = "0.9"
