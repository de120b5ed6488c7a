[package]
name = "rate_mirrors"
version = "0.1.0"
edition = "2021"
publish = false

[dependencies]
url = "2"
tar = "0.4"
flate2 = "1"
zstd = "0.13"
rand = "0.9"
chrono = "0.4"
reqwest = { version = "0.12", default-features = false, features = ["rustls-tls", "json"] }
tokio = { version = "1", features = ["rt", "rt-multi-thread", "sync", "time", "macros"] }
futures = "0.3"
clap = { version = "4", features = ["derive", "env"] }
serde = { version = "1", features = ["derive"] }
serde_json = "1"
select = "0.6"
nix = { version = "0.29", features = ["user"] }
byte-unit = "4"
