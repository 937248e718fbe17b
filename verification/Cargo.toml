[package]
name = "zypp_rs"
version = "0.1.0"
edition = "2021"
publish = false

[dependencies]
url = "2"
tribool = "*"
configparser = "3"
byte-unit = "*"
tokio = { version = "1", features = ["full"] }
reqwest = { version = "0.12", default-features = false, features = ["stream", "rustls-tls"] }
tempfile = "3"
futures = "0.3"
async-trait = "0.1"
log = "0.4"
thiserror = "1"
scopeguard = "1"
libsolv-sys = "*"
