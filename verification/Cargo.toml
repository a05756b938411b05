[package]
name = "treediff"
version = "0.1.0"
edition = "2021"
publish = false

[dependencies]
bstr = "=1.13.1"
gix-hash = { version = "=0.28.1", features = ["sha1"] }
gix-object = { version = "=0.66.1", features = ["sha1"] }
