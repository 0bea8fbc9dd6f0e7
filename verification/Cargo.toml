[package]
name = "xpct"
version = "0.1.0"
edition = "2021"
publish = false

[dependencies]
atty = "0.2"
colored = "2"
regex = "1"
serde_json = "1"
termcolor = "1"
unicase = "2"
