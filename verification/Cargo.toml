[package]
name = "regolith"
version = "0.1.0"
edition = "2021"
publish = false

[dependencies]
fraction = "*"
md5 = "0.7"
hound = "3"
argparse = "0.2"
glob = "0.3"
colored = "2"
reqwest = { version = "0.11", default-features = false, features = ["blocking"] }
