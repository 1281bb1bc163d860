[package]
name = "tendon"
version = "0.1.0"
edition = "2021"
publish = false

[dependencies]
hashbrown = { version = "=0.9.1", default-features = false }
fxhash = "=0.2.1"
syn = { version = "=2.0.119", features = ["full", "extra-traits"] }
proc-macro2 = "=1.0.107"
quote = "=1.0.47"
regex = "=1.13.1"
serde_json = "=1.0.154"
rls-data = "=0.19.1"
cargo_metadata = "=0.8.2"
soup = "=0.5.1"
tracing = "=0.1.44"
tracing-subscriber = "=0.3.23"
num_cpus = "=1.17.0"
parking_lot = "=0.12.5"
futures = "=0.3.34"
log = "=0.4.35"
