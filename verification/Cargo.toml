[package]
name = "maybe_async_cfg"
version = "0.1.0"
edition = "2021"
publish = false

[dependencies]
proc-macro2 = "1"
proc-macro-error = "1"
quote = "1"
syn = { version = "1", features = ["full", "visit-mut", "extra-traits"] }
