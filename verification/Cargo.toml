[package]
name = "ironfix"
version = "0.4.0"
edition = "2021"
publish = false

[dependencies]
async-trait = "=0.1.92"
bytes = "=1.12.1"
itoa = "=1.0.18"
memchr = "=2.8.3"
parking_lot = "=0.12.5"
serde = { version = "=1.0.229", features = ["derive"] }
smallvec = { version = "=1.16.4", features = ["const_generics"] }
thiserror = "=2.0.21"
tokio-util = { version = "=0.7.20", features = ["codec"] }
tracing = "=0.1.44"
