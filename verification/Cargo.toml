[package]
name = "ilo_hw_metrics"
version = "0.1.0"
edition = "2021"
publish = false

[dependencies]
clap = "*"
reqwest = { version = "*", default-features = false, features = ["blocking", "rustls-tls"] }
