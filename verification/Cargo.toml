[package]
name = "pumpkindb"
version = "0.1.0"
edition = "2021"
publish = false

[dependencies]
num-bigint = "=0.5.1"
num-traits = "=0.2.19"
uuid = { version = "=1.29.0", features = ["v4", "v5"] }
serde_json = "=1.0.154"
rust-crypto = "=0.2.36"
hybrid-clocks = "=0.3.4"
lmdb-zero = "=0.4.4"
byteorder = "=1.5.0"
memmap = "=0.7.0"
mio = "=0.6.23"
slab = "=0.4.12"
log = "=0.4.35"
clap = "=4.6.7"
num_cpus = "=1.17.0"
rand = "=0.3.23"

[dev-dependencies]
tempdir = "=0.3.7"
