[package]
name = "a2o4"
version = "0.1.0"
edition = "2021"
publish = false

[dependencies]
anyhow = "1"
url = "2"
regex = "1"
scraper = "0.20"
indexmap = { version = "2", features = ["serde"] }
serde = { version = "1", features = ["derive"] }
toml = "0.8"
directories = "5"
tokio = { version = "1", features = ["macros", "rt-multi-thread", "fs", "io-util", "net", "time", "sync"] }
reqwest = { version = "0.12", default-features = false, features = ["cookies", "native-tls"] }
reqwest_cookie_store = "0.8"
cookie_store = { version = "0.21", features = ["serde_json"] }
reqwest-websocket = "0.4"
rocket = { version = "0.5", features = ["json"] }
rocket_db_pools = { version = "0.2", features = ["sqlx_sqlite"] }
sqlx = { version = "0.7", features = ["sqlite", "runtime-tokio", "migrate", "macros"] }
ssh2 = "0.9"
epub = "2"
