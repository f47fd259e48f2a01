[package]
name = "textrest"
version = "0.1.0"
edition = "2021"
publish = false

[dependencies]
url = "2"
regex = "1"
scraper = "*"
serde_json = "1"
jsonpath_lib = "*"
boa_engine = "*"
base64 = "*"
twox-hash = "*"
chrono = "*"
serde = { version = "1", features = ["derive"] }
anyhow = "1"
rusqlite = { version = "*", features = ["bundled"] }
reqwest = { version = "*", default-features = false, features = ["cookies"] }
tokio = { version = "1", features = ["rt", "time", "sync"] }
epub = "*"
dirs = "*"
lazy_static = "1"
