[package]
name = "mixplan"
version = "0.1.0"
edition = "2021"
publish = false

[dependencies]
symphonia = "=0.5.5"
rustfft = "=6.4.1"
num-complex = "=0.4.6"
lofty = "=0.25.4"
walkdir = "=2.5.0"
rayon = "=1.12.0"
ferrous-opencc = "=0.4.0"
