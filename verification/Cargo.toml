[package]
name = "search_engine"
version = "0.1.0"
edition = "2021"
publish = false

[dependencies]
crossbeam-channel = "0.5"
csv-async = { version = "1.3", features = ["tokio"] }
rust-numerals = "0.1"
rust-stemmers = "1.2"
scraper = "0.19"
serde = { version = "1", features = ["derive"] }
serde_json = "1"
spider = "1"
sqlx = { version = "0.7", default-features = false, features = ["postgres", "runtime-tokio", "uuid", "time", "bigdecimal"] }
stop-words = "0.8"
time = { version = "0.3", features = ["serde"] }
tokio = { version = "1", features = ["rt-multi-thread", "macros", "fs"] }
tokio-stream = "0.1"
url = "2"
uuid = { version = "1", features = ["serde"] }
