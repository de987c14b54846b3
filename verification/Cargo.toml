[package]
name = "dynanalysis"
version = "0.1.0"
edition = "2021"
publish = false

[dependencies]
rand = "*"
heapless = "*"
libc = "*"
memmap2 = "*"
uuid = { version = "*", features = ["v4"] }
anyhow = "*"
clap = "*"
colored = "*"
tabled = "*"
