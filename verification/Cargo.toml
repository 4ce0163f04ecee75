[package]
name = "node_core"
version = "0.1.0"
edition = "2021"
publish = false

[dependencies]
regex = "*"
rusqlite = { version = "*", features = ["bundled"] }
trust-dns-resolver = "*"
