[package]
name = "fork_aware_txpool"
version = "0.1.0"
edition = "2021"
publish = false

[dependencies]
futures = "*"
itertools = "*"
log = "*"
parking_lot = "*"
sc-utils = "*"
tokio = { version = "*", features = ["macros", "rt", "sync"] }
tokio-stream = "*"
