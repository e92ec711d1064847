[package]
name = "picante"
version = "0.1.0"
edition = "2021"
publish = false

[dependencies]
dashmap = "=6.2.1"
facet = "=0.46.5"
facet-postcard = "=0.46.1"
futures-util = "=0.3.34"
heck = "=0.5.0"
im = "=15.1.0"
parking_lot = "=0.13.0"
proc-macro2 = "=1.0.107"
quote = "=1.0.47"
tokio = { version = "=1.54.1", features = ["fs", "macros", "rt", "rt-multi-thread", "sync", "time"] }
tracing = "=0.1.44"
