[package]
name = "kdft"
version = "1.0.0"
edition = "2021"
publish = false

[dependencies]
anyhow = "1"
bitlocker-core = "0.2"
clap = { version = "4", features = ["derive"] }
flate2 = "1"
glob = "0.3"
log = "0.4"
lru = "*"
md-5 = "0.10"
rayon = "1"
serde = { version = "1", features = ["derive"] }
serde_json = "1"
sha1 = "0.10"
thiserror = "2"
zeroize = "1"
