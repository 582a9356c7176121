[package]
name = "linz_s3"
version = "0.4.6"
edition = "2021"
publish = false

[dependencies]
clap = { version = "=4.6.7", features = ["derive"] }
env_logger = "=0.11.11"
futures = "=0.3.34"
indicatif = "=0.18.6"
log = "=0.4.34"
num_cpus = "=1.17.0"
regex = "=1.13.1"
reqwest = { version = "=0.13.5", features = ["stream"] }
sanitize-filename = "=0.6.0"
serde = { version = "=1.0.229", features = ["derive"] }
stac = "=0.17.6"
stac-io = { version = "=0.3.4", features = ["store-aws"] }
thiserror = "=2.0.21"
tokio = { version = "=1.54.1", features = ["full"] }
