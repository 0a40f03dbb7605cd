[package]
name = "macro_state"
version = "0.2.0"
edition = "2021"
publish = false

[dependencies]
derive-syn-parse = "0.1"
lazy_static = "1"
proc-macro2 = "1"
quote = "1"
syn = "1"
