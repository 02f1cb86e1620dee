[package]
name = "ospf_core"
version = "0.1.0"
edition = "2021"
publish = false

[dependencies]
pnet = "*"
tokio = { version = "1", features = ["rt-multi-thread", "macros", "sync"] }
