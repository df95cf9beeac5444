[package]
name = "price_ingest"
version = "0.1.0"
edition = "2021"
publish = false

[dependencies]
chrono = { version = "0.4", default-features = false, features = ["std"] }
csv = "1"
rust_decimal = "1"
sqlx = { version = "0.7", default-features = false, features = ["runtime-tokio", "postgres", "chrono", "rust_decimal"] }
tokio = { version = "1", features = ["macros", "rt-multi-thread", "time"] }
ureq = "2"
