[package]
name = "gmodpatchtool"
version = "0.1.0"
edition = "2021"
publish = false

[dependencies]
blake3 = "=1.8.7"
bytes = "=1.12.1"
clap = { version = "=4.6.7", features = ["derive"] }
console = "=0.16.6"
crossterm = "=0.29.0"
dirs = "=7.0.0"
dunce = "=1.0.5"
indexmap = { version = "=2.14.2", features = ["serde"] }
indicatif = "=0.18.6"
is_elevated = "=0.1.2"
open = "=5.4.5"
qbsdiff = "=1.4.4"
rayon = "=1.12.0"
regex = "=1.13.1"
reqwest = { version = "=0.12.28", default-features = false, features = ["json", "rustls-tls"] }
serde = { version = "=1.0.229", features = ["derive"] }
steamid = "=0.3.0"
sysinfo = "=0.40.1"
thiserror = "=2.0.21"
tokio = { version = "=1.54.1", features = ["full"] }
tracing = "=0.1.44"
tracing-subscriber = { version = "=0.3.23", features = ["env-filter"] }
win32console = "=0.1.5"
windows-registry = "=0.100.0"
zstd = "=0.14.3"
