[package]
name = "arroyo_datastream"
version = "0.1.0"
edition = "2021"
publish = false

[dependencies]
anyhow = "1"
arrow-schema = { version = "*", features = ["serde"] }
datafusion-proto = { version = "*", default-features = false }
nanoid = "0.4"
petgraph = "0.6"
prost = "*"
rand = { version = "0.8", features = ["small_rng"] }
serde_json = "1"
strum = { version = "0.26", features = ["derive"] }
