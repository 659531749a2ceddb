[package]
name = "chirps"
version = "0.5.2"
edition = "2021"
publish = false

[dependencies]
alopex-core = "=0.8.16"
anyhow = "=1.0.104"
async-trait = "=0.1.92"
bincode = "=1.3.3"
blake3 = "=1.8.7"
crc32fast = "=1.5.4"
filetime = "=0.2.29"
openraft = { version = "=0.9.25", features = ["serde"] }
prometheus = { version = "=0.13.4", default-features = false }
quinn = { version = "=0.11.12", default-features = false, features = ["runtime-tokio"] }
rand = "=0.8.8"
serde = { version = "=1.0.229", features = ["derive"] }
serde_json = "=1.0.154"
sha2 = "=0.11.1"
thiserror = "=1.0.69"
tokio = { version = "=1.54.1", features = ["fs", "io-util", "macros", "rt-multi-thread", "sync", "time"] }
tracing = "=0.1.44"
xxhash-rust = { version = "=0.8.19", features = ["xxh64"] }
zstd = "=0.13.4"
