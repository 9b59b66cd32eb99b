[package]
name = "tdp_tl"
version = "0.1.0"
edition = "2021"
publish = false

[dependencies]
ahash = "*"
anyhow = "*"
argh = "*"
binary-greedy-meshing = "*"
byteorder = "*"
env_logger = "*"
fast-surface-nets = "*"
hashbrown = "*"
indexmap = "*"
log = "*"
mesh-tools = "*"
meshopt = "*"
nalgebra = "*"
nom = "*"
ordslice = "*"
rangemap = "*"
rayon = "*"
simple-stopwatch = "*"
