[package]
name = "book_api"
version = "0.1.0"
edition = "2021"
publish = false

[dependencies]
serde_json = "*"
async-trait = "*"
aws-config = { version = "*", default-features = false }
aws-sdk-dynamodb = { version = "*", default-features = false }
lambda_http = "*"
tokio = { version = "*", features = ["macros", "rt"] }
tracing = "*"
tracing-subscriber = "*"
