[package]
name = "funcmap"
version = "0.1.0"
edition = "2021"
publish = false

[dependencies]
syn = { version = "2", features = ["full", "visit", "fold", "extra-traits", "parsing", "printing"] }
proc-macro2 = "1"
quote = "1"
indexmap = "2"
