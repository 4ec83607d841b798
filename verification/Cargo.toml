[package]
name = "rustscan"
version = "2.4.1"
edition = "2021"
publish = false

[dependencies]
ansi_term = "0.12"
bit-set = "0.8"
blackrock2 = "*"
cidr-utils = "0.6"
clap = { version = "4", features = ["derive"] }
colored = "2"
dirs = "5"
futures-lite = "2"
futures-util = "0.3"
gcd = "2"
hickory-resolver = { version = "0.24", features = ["dns-over-rustls"] }
rand = "0.9"
serde = { version = "1", features = ["derive"] }
serde_derive = "1"
tokio = { version = "1", features = ["fs", "io-util", "macros", "net", "rt", "time"] }
tokio-par-stream = "*"
toml = "0.8"
