[package]
name = "xlsx2csv"
version = "0.1.0"
edition = "2021"
publish = false

[dependencies]
quick-xml = "0.31"
csv = "1"
regex = "1"
zip = { version = "0.6", default-features = false, features = ["deflate"] }
