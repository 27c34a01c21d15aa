[package]
name = "exile_harness"
version = "0.1.0"
edition = "2021"
publish = false

[dependencies]
flate2 = "1"
jiff = "0.2"
serde = { version = "1", features = ["derive"] }
serde_json = "1"
tar = "0.4"
toml = "*"
ureq = "3"
