[package]
name = "domain_hunter"
version = "0.1.0"
edition = "2021"
publish = false

[dependencies]
url = "2"
reqwest = { version = "*", default-features = false }
tokio = { version = "*", features = ["macros", "rt-multi-thread"] }
clap = "*"
colored = "*"
trust-dns-resolver = "*"
trust-dns-proto = "*"
