[package]
name = "oreilly_epub"
version = "0.1.0"
edition = "2021"
publish = false

[dependencies]
anyhow = "=1.0.104"
clap = { version = "=4.6.7", features = ["derive"] }
directories = "=6.0.0"
futures-util = "=0.3.34"
indicatif = "=0.18.6"
ogrim = "=0.1.1"
quick-xml = "=0.38.4"
relative-path = "=2.0.3"
reqwest = { version = "=0.12.28", default-features = false, features = ["rustls-tls", "cookies", "json", "stream"] }
serde = { version = "=1.0.229", features = ["derive"] }
serde_json = "=1.0.154"
tokio = { version = "=1.54.1", features = ["full"] }
tokio-util = { version = "=0.7.20", features = ["io"] }
url = { version = "=2.5.8", features = ["serde"] }
zip = { version = "=9.2.2", default-features = false, features = ["deflate"] }
