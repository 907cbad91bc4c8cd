[package]
name = "kew"
version = "0.1.0"
edition = "2021"
publish = false

[dependencies]
bach = "=0.2.0"
blake3 = "=1.8.7"
arrow-array = "=60.1.0"
arrow-schema = "=60.1.0"
parquet = { version = "=60.1.0", default-features = false, features = ["arrow"] }
pulldown-cmark = { version = "*", default-features = false }
pulldown-cmark-to-cmark = "*"
