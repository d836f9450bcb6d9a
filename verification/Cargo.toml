[package]
name = "lpr_router"
version = "0.1.0"
edition = "2021"
publish = false

[dependencies]
anyhow = "1"
async-trait = "0.1"
aws-config = { version = "1", features = ["behavior-version-latest"] }
aws-sdk-lambda = "1"
aws-sdk-s3 = "1"
axum = "0.8"
axum-tracing-opentelemetry = "*"
base64 = "0.22"
bytes = "1"
clap = { version = "4", features = ["derive"] }
dashmap = "6"
futures = "0.3"
http = "1"
init-tracing-opentelemetry = { version = "*", features = ["tracing_subscriber_ext", "otlp", "xray"] }
matchit = "0.8"
memchr = "2"
opentelemetry = "*"
opentelemetry-aws = { version = "*", features = ["trace"] }
opentelemetry-otlp = { version = "*", features = ["grpc-tonic"] }
opentelemetry_sdk = { version = "*", features = ["rt-tokio", "experimental_trace_batch_span_processor_with_async_runtime"] }
serde = { version = "1", features = ["derive"] }
serde_json = "1"
serde_yaml = "0.9"
tokio = { version = "1", features = ["full"] }
tokio-stream = "0.1"
tracing = "0.1"
tracing-subscriber = { version = "0.3", features = ["env-filter"] }
url = "2"
uuid = { version = "1", features = ["v4"] }

[dev-dependencies]
aws_lambda_events = { version = "*", default-features = false, features = ["apigw"] }
