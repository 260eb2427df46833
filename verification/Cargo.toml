[package]
name = "karvon"
version = "0.1.0"
edition = "2021"
publish = false

[dependencies]
chrono = { version = "=0.4.45", default-features = false, features = ["std", "now"] }
nix = { version = "=0.29.0", default-features = false, features = ["signal", "process", "resource"] }
serde = { version = "1", features = ["derive"] }
serde_json = "1"
tokio = { version = "1", default-features = false, features = ["process", "io-util", "sync", "time", "rt", "macros"] }
