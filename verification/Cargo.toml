[package]
name = "tgs_convert"
version = "0.1.0"
edition = "2021"
publish = false

[dependencies]
anyhow = "1"
clap = { version = "4", features = ["derive"] }
ctrlc = "3"
flate2 = "1"
png = "*"
reqwest = { version = "0.12", default-features = false, features = ["blocking", "json", "rustls-tls"] }
rlottie = "*"
serde = { version = "1", features = ["derive"] }
serde_json = "1"
tempfile = "3"
