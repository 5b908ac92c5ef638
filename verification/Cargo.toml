[package]
name = "af_coding_challenge"
version = "0.1.0"
edition = "2021"
publish = false

[dependencies]
csv = "1"
log = "0.4"
rayon = "1"
reqwest = { version = "0.12", default-features = false, features = ["rustls-tls"] }
tokio = { version = "1", features = ["macros", "rt-multi-thread"] }
