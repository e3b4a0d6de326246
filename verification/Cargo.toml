[package]
name = "uniswap_v4"
version = "0.1.0"
edition = "2021"
publish = false

[dependencies]
alloy = { version = "1", default-features = false, features = ["std", "contract", "rpc-types", "sol-types", "providers", "eips"] }
chrono = { version = "0.4", default-features = false, features = ["std", "clock"] }
futures = "0.3"
rayon = "1"
serde = { version = "1", features = ["derive"] }
serde_json = "1"
thiserror = "2"
tokio = { version = "1", features = ["rt", "sync", "time"] }
tracing = "0.1"
uniswap_v3_math = "*"
