[package]
name = "content_paulmcbride_com"
version = "0.1.0"
edition = "2021"
publish = false

[dependencies]
gray_matter = "=0.2.9"
chrono = "=0.4.45"
reqwest = { version = "=0.12.28", default-features = false, features = ["json", "rustls-tls"] }
mime_guess = "=2.0.5"
itertools = "=0.13.0"
serde = { version = "=1.0.229", features = ["derive"] }
axum = "=0.7.9"
tokio = { version = "=1.54.1", features = ["full"] }
tower-http = { version = "=0.5.2", features = ["fs", "trace", "compression-full"] }
tracing = "=0.1.44"
tracing-subscriber = { version = "=0.3.23", features = ["env-filter", "json"] }
dotenvy = "=0.15.7"
eyre = "=0.6.14"
aws-config = "=1.13.0"
aws-credential-types = "=1.3.1"
aws-sdk-s3 = "=1.157.0"
