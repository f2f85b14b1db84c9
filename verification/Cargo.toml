[package]
name = "anthelion"
version = "0.1.0"
edition = "2021"
publish = false

[dependencies]
anstream = "=1.0.0"
camino = "=1.2.6"
chrono = "=0.4.45"
clap = { version = "=4.6.7", features = ["derive"] }
clap_complete = "=4.6.11"
color-eyre = "=0.6.5"
encoding_rs = "=0.8.44"
flate2 = "=1.1.10"
futures-util = "=0.3.34"
indexmap = "=2.14.2"
inquire = "=0.9.4"
keyring-core = "=1.0.1"
msi = "=0.10.0"
napi = { version = "=3.16.1", features = ["async"] }
napi-derive = "=3.7.0"
pulldown-cmark = { version = "=0.13.6", default-features = false }
quick-xml = { version = "=0.42.0", features = ["serialize"] }
reqwest = { version = "=0.13.5", default-features = false }
reqwest-middleware = { version = "=0.5.2", default-features = false }
secrecy = "=0.10.3"
serde = { version = "=1.0.229", features = ["derive"] }
serde_json = "=1.0.154"
serde-saphyr = "=2.0.0"
serini = "=0.3.0"
sha2 = "=0.11.1"
strsim = "=0.11.1"
thiserror = "=2.0.21"
tokio = { version = "=1.54.1", features = ["rt-multi-thread", "macros"] }
winget-types = { version = "=0.6.0", features = ["std", "serde", "chrono"] }
