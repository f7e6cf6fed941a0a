[package]
name = "url_md"
version = "0.1.0"
edition = "2021"
publish = false

[dependencies]
url = "2"
scraper = "*"
html2md = "*"
serde_yaml = "0.9"
time = { version = "0.3", features = ["formatting"] }
reqwest = { version = "0.12", default-features = false, features = ["rustls-tls", "gzip", "blocking"] }
tokio = { version = "1", features = ["macros", "rt", "rt-multi-thread", "sync"] }
clap = { version = "4", features = ["derive"] }
rmcp = { version = "*", features = ["server", "transport-io", "macros"] }
schemars = "*"
serde = { version = "1", features = ["derive"] }
thiserror = "2"
async-trait = "*"
