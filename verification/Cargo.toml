[package]
name = "trade_zones"
version = "0.1.0"
edition = "2021"
publish = false

[dependencies]
sha2 = "0.10"
hex = "0.4"
hmac = "0.12"
rand = "0.8"
url = "2"
serde = { version = "1", features = ["derive"] }
serde_json = "1"
tokio = { version = "1", features = ["rt-multi-thread", "macros", "time"] }
reqwest = { version = "0.12", features = ["json"] }
actix-web = { version = "4", default-features = false, features = ["macros"] }
futures = "0.3"
prettytable-rs = { version = "0.10", default-features = false }
chrono = "0.4"
config = { version = "0.14", default-features = false, features = ["toml"] }
