[package]
name = "sqldb_postgres"
version = "0.1.0"
edition = "2021"
publish = false

[dependencies]
tokio = { version = "*", features = ["rt-multi-thread", "macros", "sync", "io-std", "io-util", "time"] }
tokio-postgres = "*"
bb8-postgres = "*"
