[package]
name = "murk"
version = "0.1.0"
edition = "2021"
publish = false

[dependencies]
indexmap = "2"
smallvec = "1"
crossbeam-channel = "0.5"
