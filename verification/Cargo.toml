[package]
name = "actfast"
version = "0.1.0"
edition = "2021"
publish = false

[dependencies]
chrono = "0.4"
zip = "0.6"

[dev-dependencies]
bitreader = "0.3"
