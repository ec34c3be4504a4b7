[package]
name = "ocid"
version = "0.1.0"
edition = "2021"
publish = false

[dependencies]
blake3 = { version = "1", default-features = false, features = ["pure"] }
rand_core = { version = "0.6", features = ["getrandom"] }

[dev-dependencies]
base64 = "0.22"
