[package]
name = "bidx"
version = "0.1.0"
edition = "2021"
publish = false

[dependencies]
bincode = "=1.3.3"
bytevec = "=0.2.0"
twox-hash = "1"
serde = "1"
rayon = "1"
