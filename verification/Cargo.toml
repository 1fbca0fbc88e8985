[package]
name = "urtcp"
version = "0.1.0"
edition = "2021"
publish = false

[dependencies]
bytes = "1"
tokio = { version = "1", features = ["sync", "rt", "rt-multi-thread", "macros", "time", "net"] }
async-trait = "0.1"
thiserror = "1"
tun = { version = "0.7", default-features = false }
