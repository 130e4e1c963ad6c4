[package]
name = "parquet_schema"
version = "0.1.0"
edition = "2021"
publish = false

[dependencies]
serde = { version = "*", features = ["derive"] }
polars-parquet-format = "*"
polars-utils = { version = "*", default-features = false }
