[package]
name = "rl_pricer"
version = "0.1.0"
edition = "2021"
publish = false

[dependencies]
scraper = "*"
reqwest = { version = "*", default-features = false, features = ["blocking", "rustls-tls"] }
rayon = "*"
serde = { version = "*", features = ["derive"] }
serde_json = "*"
anyhow = "*"
