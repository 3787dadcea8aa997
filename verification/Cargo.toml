[package]
name = "heurs_core"
version = "0.1.0"
edition = "2021"
publish = false

[dependencies]
threadpool = "*"
toml = "*"
serde = { version = "*", features = ["derive"] }
tokio = { version = "*", features = ["rt-multi-thread", "macros", "time"] }
async-trait = "*"
aws-config = "*"
aws-sdk-s3 = "*"
aws-sdk-batch = "*"
