[package]
name = "candle_gnn"
version = "0.1.0"
edition = "2021"
publish = false

[dependencies]
anyhow = "=1.0.104"
candle-core = "=0.3.3"
candle-nn = "=0.3.3"
flate2 = "=1.1.10"
# candle-core 0.3 draws random half-precision numbers, which half offers below 2.5 only
half = "=2.4.1"
indicatif = "=0.17.11"
polars = { version = "=0.35.4", features = ["parquet", "random"] }
regex = "=1.13.1"
reqwest = { version = "=0.11.27", default-features = false, features = ["blocking", "rustls-tls"] }
tar = "=0.4.46"
tempfile = "=3.27.0"
zip = "=0.6.6"
