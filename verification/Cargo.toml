[package]
name = "coreshift_engine"
version = "0.4.0"
edition = "2021"

[dependencies]
coreshift-core = "=1.0.0"
