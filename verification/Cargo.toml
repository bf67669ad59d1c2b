[package]
name = "map_api"
version = "0.1.0"
edition = "2021"
publish = false

[dependencies]
aws-config = { version = "1", default-features = false, features = ["behavior-version-latest", "rt-tokio"] }
aws-sdk-dynamodb = { version = "1", default-features = false, features = ["rt-tokio"] }
aws-sdk-ssm = { version = "1", default-features = false, features = ["rt-tokio"] }
aws-smithy-async = "1"
base64 = "0.22"
derive_builder = "0.20"
futures = "0.3"
lambda_runtime = "*"
pin-project = "1"
serde = { version = "1", features = ["derive"] }
thiserror = "1"
tokio = { version = "1", features = ["macros", "rt-multi-thread"] }
tracing = "0.1"
tracing-subscriber = "0.3"
uuid = { version = "1", features = ["v4"] }

[dev-dependencies]
protobuf = "3"
