[package]
name = "songcompare"
version = "1.0.1"
edition = "2021"
publish = false

[dependencies]
symphonia = { version = "0.5", features = ["mpa", "aac", "alac", "isomp4"] }
rodio = { version = "0.20", default-features = false }
rubato = "0.16"
rustfft = "6"
crossterm = "0.28"
glob = "0.3"
