[package]
name = "madsim-io-uring"
version = "0.1.0"
edition = "2021"
publish = false

[dependencies]
io-uring = "0.7"
libc = "0.2"
rand = { version = "0.8", default-features = false }
rand_xoshiro = "0.6"
spin = "0.9"
tracing = "0.1"
