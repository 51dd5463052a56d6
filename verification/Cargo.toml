[package]
name = "aiwork"
version = "0.1.0"
edition = "2021"
publish = false

[dependencies]
axum = "=0.8.9"
base64 = "=0.22.1"
bytes = "=1.12.1"
chrono = "=0.4.45"
flate2 = "=1.1.10"
http-body-util = "=0.1.5"
hyper = { version = "=1.12.0", features = ["client", "http1"] }
hyper-util = { version = "=0.1.21", features = ["client", "client-legacy", "http1", "tokio"] }
lnk = "=0.6.4"
rcgen = { version = "=0.14.10", default-features = false, features = ["aws_lc_rs", "crypto", "pem", "x509-parser"] }
regex = "=1.13.1"
rusqlite = { version = "=0.32.1", features = ["bundled"] }
serde = { version = "=1.0.229", features = ["derive"] }
serde_json = "=1.0.154"
sha2 = "=0.10.9"
time = "=0.3.55"
tokio = { version = "=1.54.1", features = ["full"] }
tokio-rustls = "=0.26.6"
ureq = { version = "=2.12.1", features = ["json"] }
urlencoding = "=2.1.3"
windows-registry = "=0.100.0"
windows-sys = { version = "=0.59.0", features = ["Win32_Foundation", "Win32_Networking_WinSock", "Win32_Security_Cryptography"] }
