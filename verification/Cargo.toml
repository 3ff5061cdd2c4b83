[package]
name = "rusneb_parser"
version = "0.4.0"
edition = "2021"
publish = false

[dependencies]
anyhow = "1"
arrow-array = { version = "*", default-features = false }
arrow-schema = { version = "*", default-features = false }
chrono = { version = "0.4", default-features = false, features = ["clock", "std"] }
clap = { version = "4", features = ["derive"] }
ctrlc = "3"
flate2 = "1"
html-escape = "0.2"
parquet = { version = "*", default-features = false, features = ["arrow"] }
regex = "1"
reqwest = { version = "0.12", default-features = false, features = ["blocking", "cookies", "socks", "rustls-tls"] }
roxmltree = "*"
rusqlite = { version = "*", features = ["bundled"] }
scraper = "*"
serde = { version = "1", features = ["derive"] }
serde_json = "1"
sha2 = "0.10"
url = "2"
xz2 = "0.1"
