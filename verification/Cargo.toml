[package]
name = "tavern"
version = "0.1.0"
edition = "2021"
publish = false

[dependencies]
serenity = "0.11"
rand = "0.8"
sqlx = { version = "0.6", features = ["runtime-tokio-rustls", "sqlite"] }
tokio = { version = "1", features = ["macros", "rt-multi-thread", "sync"] }
dotenv = "0.15"
tracing-subscriber = "0.3"
