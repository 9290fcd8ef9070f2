[package]
name = "sloper_extension"
version = "0.1.0"
edition = "2021"
publish = false

[dependencies]
async-trait = "=0.1.92"
aws-lc-rs = "=1.19.0"
base64 = "=0.22.1"
clap = { version = "=4.6.7", features = ["derive", "env"] }
ed25519-dalek = "=2.2.0"
log = "=0.4.35"
png = "=0.18.1"
proc-macro2 = "=1.0.107"
quote = "=1.0.47"
reqwest = { version = "=0.12.28", default-features = false, features = ["json", "multipart", "rustls-tls", "stream"] }
semver = "=1.0.28"
serde = { version = "=1.0.229", features = ["derive"] }
serde_json = { version = "=1.0.154", features = ["preserve_order"] }
sha2 = "=0.10.9"
syn = { version = "=3.0.9", features = ["full", "extra-traits"] }
tempfile = "=3.27.0"
thiserror = "=2.0.21"
time = { version = "=0.3.55", features = ["parsing", "formatting", "macros"] }
tokio = { version = "=1.54.1", features = ["fs", "io-util", "macros", "process", "rt-multi-thread", "signal", "sync", "time"] }
tokio-util = { version = "=0.7.20", features = ["io"] }
url = "=2.5.8"
uuid = { version = "=1.29.0", features = ["v4"] }
wit-component = { version = "=0.263.0", features = ["dummy-module"] }
wit-parser = "=0.263.0"
zeroize = "=1.9.1"
