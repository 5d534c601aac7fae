[package]
name = "bucket_sync"
version = "0.1.0"
edition = "2021"
publish = false

[dependencies]
async-recursion = "*"
aws-config = "*"
aws-sdk-s3 = "*"
env_logger = "*"
log = "*"
shellexpand = "*"
structopt = "*"
thiserror = "*"
tokio = { version = "*", features = ["macros", "rt-multi-thread"] }
