[package]
name = "vtest"
version = "0.1.0"
edition = "2021"
publish = false

[dependencies]
sha2 = "=0.10.9"
serde = { version = "=1.0.229", features = ["derive"] }
serde_json = "=1.0.154"
syn = { version = "=2.0.119", features = ["full", "parsing"] }
proc-macro2 = { version = "=1.0.107", features = ["span-locations"] }
thiserror = "=1.0.69"
