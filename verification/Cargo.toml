[package]
name = "aquatic"
version = "0.1.0"
edition = "2021"
publish = false

[dependencies]
anyhow = "1"
blake3 = "1"
byteorder = "1"
constant_time_eq = "0.3"
crossbeam-channel = "0.5"
getrandom = "0.2"
hex = "0.4"
indexmap = "2"
libc = "0.2"
log = "0.4"
mio = { version = "0.8", features = ["net", "os-poll"] }
parking_lot = "0.12"
rand = { version = "0.8", features = ["small_rng"] }
serde = { version = "1", features = ["derive"] }
socket2 = { version = "0.5", features = ["all"] }

[dev-dependencies]
quickcheck = { version = "1", default-features = false }
