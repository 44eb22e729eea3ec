[package]
name = "dragonfly"
version = "0.1.0"
edition = "2021"
publish = false

[dependencies]
blake3 = "*"
xxhash-rust = { version = "*", features = ["xxh3"] }
chrono = "*"
serde = { version = "*", features = ["derive"] }
serde_json = "*"
jwalk = "*"
dirs = "*"
sysinfo = "*"
libc = "*"
