[package]
name = "metaparse"
version = "0.1.0"
edition = "2021"
publish = false

[dependencies]
regex = "=1.13.1"
quick-xml = "=0.42.0"
zip = { version = "=9.2.2", default-features = false, features = ["deflate"] }
serde = { version = "=1.0.229", features = ["derive"] }
serde_json = "=1.0.154"
memmap2 = "=0.9.12"
toml = "=1.1.8"
csv = "=1.4.0"
lopdf = "=0.46.0"
calamine = "=0.38.0"
serde_yaml = "=0.9.34"
rusqlite = { version = "*", features = ["bundled"] }
tempfile = "*"
