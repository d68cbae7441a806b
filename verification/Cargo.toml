[package]
name = "orbit"
version = "0.1.0"
edition = "2021"
publish = false

[dependencies]
blake3 = "=1.8.7"
chacha20poly1305 = "=0.10.1"
clap = { version = "=4.6.7", features = ["derive"] }
ed25519-dalek = "=2.2.0"
fastcdc = "4"
getrandom = "=0.3.4"
hex = "=0.4.3"
hkdf = "=0.12.4"
quinn = { version = "=0.11.12", default-features = false, features = ["runtime-tokio", "rustls-ring"] }
rcgen = "=0.14.10"
rusqlite = { version = "=0.37.0", features = ["bundled"] }
rustls = { version = "=0.23.46", default-features = false, features = ["ring", "std", "tls12"] }
serde = { version = "=1.0.229", features = ["derive"] }
serde_json = "=1.0.154"
sha2 = "=0.10.9"
tempfile = "=3.27.0"
thiserror = "=2.0.21"
tokio = { version = "=1.54.1", features = ["macros", "rt-multi-thread", "signal", "sync", "time"] }
toml = "=0.9.12"
unicode-casefold = "=0.2.0"
unicode-normalization = "=0.1.26"
uuid = { version = "=1.29.0", features = ["v4"] }
walkdir = "=2.5.0"
zeroize = "=1.9.1"

[dev-dependencies]
prost = { version = "0.14", default-features = false }
