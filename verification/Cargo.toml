[package]
name = "chain_ingest"
version = "0.1.0"
edition = "2021"
publish = false

[dependencies]
ed25519-zebra = { version = "=4.2.0", default-features = false, features = ["alloc"] }
futures = "=0.3.34"
subxt = { version = "=0.38.1", features = ["unstable-light-client"] }
tokio = { version = "=1.54.1", features = ["macros", "rt-multi-thread", "signal"] }
tracing-subscriber = "=0.3.23"
