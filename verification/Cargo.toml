[package]
name = "wks"
version = "0.1.0"
edition = "2021"
publish = false

[dependencies]
sequoia-openpgp = { version = "2", default-features = false, features = ["crypto-rust", "allow-experimental-crypto", "allow-variable-time-crypto"] }
zbase32 = "0.1.2"
thiserror = "2"
tokio = { version = "1", features = ["full"] }
tokio-stream = "0.1"
tracing = "0.1"
inotify = "0.11"
axum = "0.8"
axum-extra = "0.10"
enum_dispatch = "0.3"
