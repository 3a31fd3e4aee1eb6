[package]
name = "rapt"
version = "0.1.0"
edition = "2021"
publish = false

[dependencies]
glob = "=0.3.4"
regex = "=1.13.1"
clap = "=2.34.0"
colored = "=2.2.0"
indicatif = "=0.16.2"
console = "=0.16.6"
log = "=0.4.34"
simple_logger = "=1.16.0"
flate2 = "=1.1.10"
xz2 = "=0.1.7"
ar = "=0.8.0"
tar = "=0.4.46"
file-lock = "=1.1.20"
reqwest = { version = "=0.11.27", default-features = false, features = ["blocking"] }
tokio = { version = "=1.54.1", features = ["rt-multi-thread", "io-util"] }
