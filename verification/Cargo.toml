[package]
name = "rot"
version = "0.1.0"
edition = "2021"
publish = false

[dependencies]
chrono = "0.4"
color-print = "0.3"
colored = "2"
const_format = "0.2"
directories = "5"
eyre = "0.6"
glob = "0.3"
nix = { version = "0.29", features = ["fs", "process"] }
regex = "1"
serde = { version = "1", features = ["derive"] }
serde-lexpr = "0.1"
serde_json = "1"
strfmt = "0.2"
thiserror = "1"
toml = "0.8"
