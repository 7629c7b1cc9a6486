[package]
name = "revindex_export"
version = "0.1.0"
edition = "2021"
publish = false

[dependencies]
anyhow = "1"
arrow2 = { version = "*", features = ["io_parquet", "io_parquet_compression"] }
camino = "1"
csv = "1"
ctrlc = "3"
rayon = "1"
rocksdb = "*"
serde = { version = "1", features = ["derive"] }
sourmash = { version = "*", features = ["branchwater"] }
