[package]
name = "cost_reporter"
version = "0.1.0"
edition = "2021"
publish = false

[dependencies]
aws-config = "*"
aws-sdk-cloudwatch = "*"
aws-sdk-costexplorer = "*"
aws-sdk-s3 = "*"
aws-smithy-types = "*"
clap = { version = "*", features = ["derive"] }
csv = "*"
futures = "*"
reqwest = { version = "*", default-features = false, features = ["rustls-tls"] }
serde = { version = "*", features = ["derive"] }
serde_json = "*"
tokio = { version = "*", features = ["macros", "rt-multi-thread"] }
