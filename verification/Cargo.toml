[package]
name = "scrubber"
version = "0.1.0"
edition = "2021"
publish = false

[dependencies]
psbt-v2 = "0.3.0"
