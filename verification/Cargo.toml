[package]
name = "store_bench"
version = "0.1.0"
edition = "2021"
publish = false

[dependencies]
aws-config = { version = "=1.12.0", features = ["behavior-version-latest"] }
aws-sdk-s3 = { version = "=1.152.0", features = ["behavior-version-latest"] }
aws-types = "~1.6.0"
bytes = "=1.12.1"
clap = { version = "=4.6.7", features = ["derive"] }
env_logger = "=0.11.11"
futures = "=0.3.34"
log = "=0.4.34"
object_store = { version = "=0.11.2", features = ["aws", "gcp"] }
parquet = { version = "=53.4.1", default-features = false, features = ["arrow", "async"] }
rand = "=0.8.8"
tokio = { version = "=1.54.1", features = ["full"] }

[dev-dependencies]
http-body = "=1.1.0"
http-body-util = "=0.1.5"
