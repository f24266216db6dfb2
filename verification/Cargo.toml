[package]
name = "vanrijn"
version = "0.1.0"
edition = "2021"
publish = false

[dependencies]
nalgebra = "0.21"
simba = "0.1"
itertools = "0.9"
rand = "0.7"
png = "0.16"
csv = "1"
obj = "0.9"
clap = "2.33"
rayon = "1"
sdl2 = "0.34"
