[package]
name = "ch_dump"
version = "0.1.0"
edition = "2021"
publish = false

[dependencies]
async-std = "=1.13.2"
clickhouse-rs = "=0.1.21"
crossbeam = "=0.8.5"
futures-util = { version = "=0.3.34", features = ["compat"] }
light-curve-feature = { version = "=0.6.0", default-features = false }
light-curve-interpol = "=0.1.1"
serde_json = "=1.0.154"
