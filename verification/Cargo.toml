[package]
name = "fw2tar"
version = "0.1.0"
edition = "2021"
publish = false

[dependencies]
aho-corasick = "1"
memmap2 = "0.9"
serde = { version = "1", features = ["derive"] }
serde_json = "1"
wait-timeout = "0.2"
walkdir = "2"
log = "0.4"
