[package]
name = "rss2pan"
version = "0.1.0"
edition = "2021"
publish = false

[dependencies]
num-bigint = "0.4"
rand = "0.8"
base64 = "0.21"
url = "2"
regex = "1"
rss = "2"
serde = { version = "1", features = ["derive"] }
serde_json = "1"
clap = { version = "4", features = ["cargo"] }
tokio = { version = "1", features = ["macros", "rt-multi-thread"] }
reqwest = { version = "0.11", default-features = false, features = ["json", "cookies", "rustls-tls"] }
rusqlite = { version = "*", features = ["bundled"] }
chrono = "0.4"
anyhow = "1"
log = "0.4"
env_logger = "0.11"
futures = "0.3"
once_cell = "1"
dirs = "6"
