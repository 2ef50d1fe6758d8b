[package]
name = "kip_sql"
version = "0.1.0"
edition = "2021"
publish = false

[dependencies]
kip_db = { version = "0.1.2-alpha.15", default-features = false }
sqlparser = "0.34"
anyhow = "1"
thiserror = "1"
tokio = { version = "1", features = ["rt", "rt-multi-thread", "macros"] }

[dev-dependencies]
tempfile = "3"
