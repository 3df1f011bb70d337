[package]
name = "netmap"
version = "0.1.0"
edition = "2021"

[dependencies]
filedescriptor = "=0.8.3"
netmap_sys = { version = "=0.1.4", features = ["netmap_with_libs"] }
