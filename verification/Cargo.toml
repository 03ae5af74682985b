[package]
name = "engine_skiplist"
version = "0.1.0"
edition = "2021"
publish = false

[dependencies]
crossbeam-skiplist = "*"
protobuf = "2"
raft = { version = "*", default-features = false, features = ["protobuf-codec"] }
