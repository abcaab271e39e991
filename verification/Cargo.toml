[package]
name = "wigners"
version = "0.1.0"
edition = "2021"
publish = false

[dependencies]
lazy_static = "1"
lru = "0.7"
ndarray = "0.15"
parking_lot = "0.12"
rayon = "1"
smallvec = "1"

[dev-dependencies]
approx = "0.5"
