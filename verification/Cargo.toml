[package]
name = "iscsi-lib"
version = "0.5.0"
edition = "2021"
publish = false

[dependencies]
anyhow = "1"
bytes = "1"
clap = { version = "4", features = ["derive"] }
crc32c = "0.6"
fuser = { version = "0.17", default-features = false }
iscsi-client-rs = "*"
libc = "0.2"
moka = { version = "0.12", features = ["future"] }
num_cpus = "1"
serde = { version = "1", features = ["derive"] }
socket2 = "0.6"
thiserror = "2"
tokio = { version = "1", features = ["full"] }
tokio-util = { version = "0.7", features = ["rt"] }
toml = "0.8"
tracing = "0.1"
tracing-subscriber = { version = "0.3", features = ["env-filter", "fmt"] }
