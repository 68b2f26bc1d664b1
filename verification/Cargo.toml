[package]
name = "radar"
version = "0.1.0"
edition = "2021"
publish = false

[dependencies]
decscloud-common = "=0.0.1"
waxosuit-guest = "=0.3.6"
serde = { version = "1", features = ["derive"] }
serde_derive = "1"
serde_json = "1"
lazy_static = "1"
rand = "0.7"
structopt = "0.3"
