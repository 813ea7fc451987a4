[package]
name = "sensor"
version = "0.1.0"
edition = "2021"
publish = false

[dependencies]
chrono = "0.4"
chrono-tz = "0.10"
memmap2 = "0.9"
rayon = "1"
