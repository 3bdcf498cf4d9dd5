[package]
name = "mdox"
version = "0.1.0"
edition = "2021"
publish = false

[dependencies]
pulldown-cmark = { version = "=0.13.5", default-features = false, features = ["html"] }
url = "=2.5.8"
reqwest = { version = "=0.12.28", default-features = false, features = ["blocking", "rustls-tls"] }
serde = { version = "=1.0.229", features = ["derive"] }
serde_json = "=1.0.154"
tokio = { version = "=1.54.1", default-features = false, features = ["rt"] }
clap = { version = "=4.6.7", features = ["derive"] }

[dev-dependencies]
regex = "=1.13.1"
