[package]
name = "nfmw_backend"
version = "0.1.0"
edition = "2021"
publish = false

[dependencies]
sha2 = "0.10"
hex = "0.4"
base64 = "0.22"
rand_core = { version = "0.9", features = ["os_rng"] }
subtle = "2"
axum = { version = "0.8", features = ["multipart"] }
axum-extra = { version = "0.10", features = ["multipart"] }
tokio = { version = "1", features = ["rt-multi-thread", "macros", "net", "sync", "fs"] }
serde = { version = "1", features = ["derive"] }
serde_json = "1"
toml = "0.8"
libc = "0.2"
reqwest = { version = "0.12", default-features = false }
