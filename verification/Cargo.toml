[package]
name = "leansig"
version = "0.1.0"
edition = "2021"
publish = false

[dependencies]
bincode = "1"
rand = { version = "0.9", default-features = false, features = ["std_rng"] }
serde = { version = "1", features = ["derive"] }
tiny-keccak = { version = "2", features = ["keccak"] }
tracing-subscriber = { version = "0.3", features = ["env-filter"] }

[dev-dependencies]
bitvec = "1"
