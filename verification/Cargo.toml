[package]
name = "dvrreview"
version = "0.1.0"
edition = "2021"
publish = false

[dependencies]
anyhow = "=1.0.104"
askama = "=0.14.0"
axum = "=0.8.9"
blake3 = { version = "=1.8.7", features = ["pure"] }
cetane = { version = "=0.1.1", features = ["postgres"] }
chrono = { version = "=0.4.45", features = ["serde"] }
clap = { version = "=4.6.7", features = ["derive"] }
diesel = { version = "=2.2.12", default-features = false, features = ["postgres_backend", "uuid", "chrono", "serde_json", "32-column-tables"] }
diesel-async = { version = "=0.5.2", features = ["postgres", "deadpool"] }
dotenvy = "=0.15.7"
futures-util = "=0.3.34"
image = { version = "=0.23.14", default-features = false, features = ["png"] }
img_hash = "=3.2.0"
postgres = "=0.19.14"
rand = "=0.9.5"
regex-lite = "=0.1.9"
reqwest = { version = "=0.12.28", default-features = false, features = ["json", "rustls-tls"] }
rustls = { version = "=0.23.46", default-features = false, features = ["ring", "std", "tls12"] }
serde = { version = "=1.0.229", features = ["derive"] }
serde_json = "=1.0.154"
tempfile = "=3.27.0"
tokio = { version = "=1.54.1", features = ["full"] }
tokio-postgres = "=0.7.18"
tokio-postgres-rustls = "=0.13.0"
tower-http = { version = "=0.6.11", features = ["fs"] }
tracing = "=0.1.44"
tracing-subscriber = { version = "=0.3.23", features = ["env-filter"] }
uuid = { version = "=1.29.0", features = ["v4", "serde"] }
walkdir = "=2.5.0"
webpki-roots = "=1.0.10"
