[package]
name = "smartdns"
version = "0.1.0"
edition = "2021"
publish = false

[dependencies]
wildcard = "*"
glob = "0.3"
url = "2"
tokio = { version = "1", features = ["rt-multi-thread", "signal", "macros"] }
trust-dns-resolver = { version = "0.22", features = ["dns-over-rustls", "dns-over-https-rustls"] }
caps = "0.5"
uzers = "*"
