[package]
name = "acropolis"
version = "0.1.0"
edition = "2021"
publish = false

[dependencies]
k256 = { version = "=0.13.4", features = ["ecdsa", "serde"] }
hex = "=0.4.3"
bincode = "=1.3.3"
risc0-zkvm = { version = "=1.2.6", default-features = false, features = ["std", "client"] }
rand_core = { version = "=0.6.4", features = ["getrandom"] }
serde = { version = "=1.0.229", features = ["derive"] }
serde_json = "=1.0.154"
clap = { version = "=4.6.7", features = ["derive"] }
axum = "=0.7.9"
tokio = { version = "=1.54.1", features = ["rt-multi-thread", "macros", "time"] }
reqwest = { version = "=0.12.28", default-features = false, features = ["blocking", "json"] }
ratatui = "=0.28.1"
