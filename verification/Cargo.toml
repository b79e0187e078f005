[package]
name = "payment_engine"
version = "0.1.0"
edition = "2021"
publish = false

[dependencies]
lru = { version = "=0.18.5", default-features = false }
dashmap = "=6.2.1"
clap = { version = "=4.6.7", features = ["derive"] }
csv = "=1.4.0"
serde = { version = "=1.0.229", features = ["derive"] }
log = "=0.4.34"
env_logger = "=0.11.11"
derive_more = { version = "=2.1.1", features = ["display"] }
thiserror = "=2.0.21"
memory-stats = "=1.2.0"
rust_decimal = "=1.43.0"
