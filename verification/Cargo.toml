[package]
name = "bulk_ingest"
version = "0.1.0"
edition = "2021"
publish = false

[dependencies]
actix-web = "=4.15.0"
actix-cors = "=0.7.2"
dotenv = "=0.15.0"
serde = { version = "=1.0.229", features = ["derive"] }
snowflake-connector-rs = "=1.1.0"
tokio = { version = "=1.53.2", features = ["macros", "rt-multi-thread"] }

[dev-dependencies]
csv = "*"
