[package]
name = "pamm"
version = "0.1.0"
edition = "2021"
publish = false

[dependencies]
sha1 = "0.10"
regex = "1"
chrono = "0.4"
urlencoding = "2"
anyhow = "1"
log = "0.4"
serde = { version = "1", features = ["derive"] }
serde_json = "1"
serde_cbor = "0.11"
bincode = { version = "2", features = ["serde"] }
sled = "0.34"
ureq = "3"
url = "2"
open = "5"
run_script = "0.11"
rayon = "1"
bi_fs_rs = "*"
