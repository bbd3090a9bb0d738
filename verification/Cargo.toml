[package]
name = "mesh_supervisor"
version = "0.1.0"
edition = "2021"
publish = false

[dependencies]
anyhow = "=1.0.104"
blake3 = "=1.8.7"
bytes = "=1.12.1"
clap = { version = "=4.6.7", features = ["env", "string"] }
clap_complete = "=4.6.11"
iroh = { version = "=1.4.1", default-features = false, features = ["tls-ring"] }
iroh-gossip = { version = "=0.101.0", default-features = false, features = ["net"] }
iroh-mdns-address-lookup = { version = "=0.6.1", default-features = false }
n0-future = "=0.3.2"
nix = { version = "=0.31.3", features = ["signal", "process", "resource", "user", "mount", "sched"] }
parking_lot = "=0.13.0"
postcard = { version = "=1.1.3", default-features = false, features = ["alloc"] }
redb = "=4.4.0"
serde = { version = "=1.0.229", features = ["derive"] }
tokio = { version = "=1.54.1", features = ["rt-multi-thread", "macros", "process", "io-util", "io-std", "sync", "time", "signal"] }
tracing = "0.1"
tracing-subscriber = { version = "0.3", features = ["env-filter"] }
