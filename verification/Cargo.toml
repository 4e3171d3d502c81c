[package]
name = "lnx_core"
version = "0.1.0"
edition = "2021"
publish = false

[dependencies]
anyhow = "1"
async-trait = "0.1"
bincode = "1"
chrono = "0.4"
crc32fast = "1"
fern = { version = "0.6", features = ["colored"] }
hashbrown = { version = "0.11", features = ["serde"] }
log = "0.4"
num_cpus = "1"
once_cell = "1"
poem = "1"
poem-openapi = "1"
rayon = "1"
serde = { version = "1", features = ["derive"] }
serde_json = "1"
sled = "0.34"
structopt = "0.3"
tantivy = "0.16"
tokio = { version = "1", features = ["rt-multi-thread", "sync", "signal", "time"] }
uuid = { version = "0.8", features = ["v4", "serde"] }
