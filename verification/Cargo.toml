[package]
name = "mainlynorfolk-mcp"
version = "1.1.0"
edition = "2021"
publish = false

[dependencies]
scraper = "=0.29.0"
sha2 = "=0.11.1"
serde = { version = "=1.0.229", features = ["derive"] }
serde_json = "=1.0.154"
async-graphql = { version = "=7.2.1", features = ["dataloader"] }
reqwest = { version = "=0.12.28", default-features = false, features = ["rustls-tls"] }
tokio = { version = "=1.54.1", features = ["macros", "rt-multi-thread", "sync"] }
http = "=1.5.0"
futures-util = "=0.3.34"
dirs = "=7.0.0"
tracing = "=0.1.44"
tracing-subscriber = { version = "=0.3.23", features = ["env-filter"] }
anyhow = "=1.0.104"
clap = { version = "=4.6.7", features = ["derive"] }
clap_complete = "=4.6.11"
thiserror = "=2.0.21"
