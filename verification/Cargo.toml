[package]
name = "shin_tl"
version = "0.1.0"
edition = "2021"
publish = false

[dependencies]
clap = { version = "4", features = ["derive"] }
csv = "1"
serde = { version = "1", features = ["derive"] }
hex-slice = "0.1"
image = { version = "0.25", default-features = false }
camino = "1"
memmap2 = "0.9"
tracing = "0.1"
tracing-subscriber = "0.3"
bytesize = "1"
