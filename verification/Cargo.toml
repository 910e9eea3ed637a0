[package]
name = "blvm_spec_lock"
version = "0.1.0"
edition = "2021"
publish = false

[dependencies]
clap = { version = "4", features = ["derive"] }
proc-macro2 = "1"
quote = "1"
regex = "1"
serde_json = "1"
sha2 = "0.10"
syn = { version = "2", features = ["full", "extra-traits", "parsing", "printing"] }
toml = "0.8"
z3 = "0.12"
