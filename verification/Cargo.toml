[package]
name = "hammurabi"
version = "0.1.0"
edition = "2021"
publish = false

[dependencies]
openssl = "*"
hex = "*"
x509-parser = "*"
ipaddress = "*"
csv = "*"
docopt = "*"
rayon = "*"
serde = { version = "*", features = ["derive"] }
