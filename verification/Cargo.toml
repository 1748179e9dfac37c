[package]
name = "tweet_archiver"
version = "0.1.0"
edition = "2021"
publish = false

[dependencies]
async-trait = "0.1"
chrono = "0.4"
dotenvy = "0.15"
futures = "0.3"
rocket = "0.5"
ron = "0.8"
sea-orm = { version = "0.12", default-features = false, features = ["macros", "with-chrono", "sqlx-sqlite", "runtime-tokio-rustls"] }
sea-orm-migration = { version = "0.12", default-features = false, features = ["sqlx-sqlite", "runtime-tokio-rustls"] }
serde = { version = "1", features = ["derive"] }
time = "0.3"
tokio = { version = "1", features = ["time"] }
twitter-v2 = "0.1"
