[package]
name = "kvs"
version = "0.1.0"
edition = "2021"
publish = false

[dependencies]
bincode = "1"
clap = "2"
crossbeam = "0.8"
crossbeam-epoch = "0.8"
flurry = "0.3"
itertools = "0.10"
mio = { version = "0.7", features = ["os-poll", "net", "os-ext"] }
mio-signals = "0.1"
mio-timerfd = "0.2"
num_cpus = "1"
parking_lot = "0.11"
positioned-io = "0.2"
rayon = "1"
serde = { version = "1", features = ["derive"] }
serde_json = "1"
sled = "0.34"
slog = "2"
slog-async = "2"
slog-term = "2"
smallvec = "1"
walkdir = "2"
