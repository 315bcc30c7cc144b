[package]
name = "gtfs_ingest"
version = "0.1.0"
edition = "2021"
publish = false

[dependencies]
arguments = "*"
bb8 = "*"
bb8-postgres = "*"
chrono = "*"
csv = "*"
fs_extra = "*"
futures = "*"
geo = "*"
geo-postgis = "*"
gtfs-structures = { version = "*", default-features = false }
itertools = "*"
postgis = "*"
rayon = "*"
rgb = "*"
serde = { version = "*", features = ["derive"] }
serde_json = "*"
titlecase = "*"
tokio = { version = "*", features = ["full"] }
tokio-postgres = "*"
