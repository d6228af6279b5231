[package]
name = "nq"
version = "0.1.0"
edition = "2021"
publish = false

[dependencies]
quick-csv = "*"
serde_json = "*"
regex = "*"
rusqlite = { version = "*", features = ["bundled"] }
docopt = "*"
encoding = "*"
mktemp = "*"
serde = "*"
serde_derive = "*"
