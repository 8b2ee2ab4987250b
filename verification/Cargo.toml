[package]
name = "par-buffer-pool"
version = "0.1.0"
edition = "2021"
publish = false

[dependencies]
lockfree-object-pool = "0.1"
object-pool = "0.6"
opool = "0.2"
rayon = "1"
swimmer = "0.3"
