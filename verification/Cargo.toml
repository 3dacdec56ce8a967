[package]
name = "csv2parquet"
version = "0.1.0"
edition = "2021"
publish = false

[dependencies]
anyhow = "1"
arrow-csv = "*"
arrow-schema = { version = "*", features = ["serde"] }
clap = { version = "4", features = ["derive"] }
flate2 = "1"
parquet = "*"
serde_json = "1"
