[package]
name = "auth"
version = "0.1.0"
edition = "2021"
publish = false

[dependencies]
jsonwebtoken = { version = "=11.1.0", features = ["rust_crypto"] }
serde = { version = "*", features = ["derive"] }
serde_json = "*"
thiserror = "*"
chrono = "*"
async-trait = "*"
tokio = { version = "*", features = ["macros", "rt"] }
lambda_runtime = "*"
postgrest = "*"
reqwest = { version = "*", features = ["json"] }
aws-config = "*"
aws-sdk-s3 = "*"
