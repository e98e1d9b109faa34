[package]
name = "tabbify_mesh"
version = "0.1.0"
edition = "2021"
publish = false

[dependencies]
async-trait = "0.1"
base64 = "0.22"
boringtun = { version = "*", default-features = false }
dashmap = "6"
libc = "0.2"
rand_core = { version = "0.6", features = ["getrandom"] }
serde = { version = "1", features = ["derive"] }
serde_json = "1"
thiserror = "2"
tokio = { version = "1", features = ["fs", "io-util", "macros", "net", "rt-multi-thread", "sync", "time"] }
tracing = "0.1"
uuid = { version = "1", features = ["v7"] }
x25519-dalek = { version = "2", features = ["static_secrets"] }
