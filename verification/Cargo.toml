[package]
name = "sparrow"
version = "0.1.0"
edition = "2021"
publish = false

[dependencies]
log = "=0.4.35"
jagua-rs = { version = "=0.6.4", features = ["spp"] }
rand = { version = "=0.9.5", features = ["small_rng"] }
rand_distr = "=0.5.1"
rayon = "=1.12.0"
itertools = "=0.15.0"
ordered-float = "=5.5.1"
float-cmp = "=0.10.0"
slotmap = "=1.1.1"
tap = "=1.0.1"
clap = { version = "=4.6.7", features = ["derive"] }
anyhow = "=1.0.104"
jiff = "=0.2.39"
mimalloc = "=0.1.52"
numfmt = "=1.2.0"
once_cell = "=1.21.4"
num_cpus = "=1.17.0"
svg = "=0.18.0"
num-traits = "=0.2.19"
serde = { version = "=1.0.229", features = ["derive"] }
serde_json = "=1.0.154"
