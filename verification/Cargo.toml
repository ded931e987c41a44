[package]
name = "fastwave_core"
version = "0.1.0"
edition = "2021"
publish = false

[dependencies]
wellen = "=0.25.6"
wasmtime = "=48.0.5"
