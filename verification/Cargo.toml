[package]
name = "mlh"
version = "0.1.0"
edition = "2021"
publish = false

[dependencies]
regex = "=1.13.1"
chrono = "=0.4.45"
serde = { version = "=1.0.229", features = ["derive"] }
serde_yaml = "=0.9.34"
log = "=0.4.35"
env_logger = "=0.11.11"
clap = { version = "=4.6.7", features = ["derive"] }
glob = "=0.3.4"
inquire = "=0.9.4"
config = "=0.15.27"
ctrlc = "=3.5.2"
crossbeam-channel = "=0.5.17"
anyhow = "=1.0.104"
thiserror = "=2.0.21"
tracing = "=0.1.44"
mail-parser = "=0.11.9"
nntp = "=0.0.5"
git2 = { version = "=0.21.0", default-features = false }
arrow = { version = "=60.1.0", default-features = false }
parquet = { version = "=60.1.0", default-features = false, features = ["arrow", "zstd"] }
