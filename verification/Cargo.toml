[package]
name = "binary_serde"
version = "0.1.0"
edition = "2021"
publish = false

[dependencies]
array-init = "2"
recursive_array = "0.1.3"
bitflags = "2"
thiserror-no-std = "2"
syn = { version = "2", features = ["full"] }
quote = "1"
proc-macro2 = "1"
