[package]
name = "log_forensics"
version = "0.1.0"
edition = "2021"
publish = false

[dependencies]
csv = "1"
etherparse = "*"
grep-matcher = "*"
grep-regex = "*"
lz4_flex = "*"
lzma-rust2 = "*"
pcap-parser = "*"
regex = "1"
ruzstd = "*"
serde_json = "1"
time = { version = "0.3", features = ["formatting"] }
tokio = { version = "1", features = ["rt", "rt-multi-thread"] }
napi = { version = "*", features = ["async", "serde-json"] }
napi-derive = "*"
