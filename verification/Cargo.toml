[package]
name = "wsman"
version = "0.1.0"
edition = "2021"
publish = false

[dependencies]
md-5 = "=0.10.6"
quick-xml = { version = "=0.31.0", features = ["serialize"] }
thiserror = "=1.0.69"
serde = { version = "=1.0.229", features = ["derive"] }
reqwest = { version = "=0.12.28", default-features = false, features = ["blocking", "rustls-tls"] }
