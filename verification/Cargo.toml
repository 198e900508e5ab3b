[package]
name = "mnir_core"
version = "0.1.0"
edition = "2021"
publish = false

[dependencies]
getrandom = "0.3"
minicbor = { version = "0.25", features = ["std"] }
