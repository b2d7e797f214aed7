[package]
name = "nydus_storage"
version = "0.1.0"
edition = "2021"
publish = false

[dependencies]
aws-config = "1"
aws-credential-types = "1"
aws-sigv4 = "1"
aws-smithy-runtime-api = { version = "1", features = ["client"] }
libc = "0.2"
nix = "0.29"
opentelemetry = "0.30"
opentelemetry-otlp = { version = "0.30", default-features = false, features = ["http-proto", "trace", "reqwest-blocking-client"] }
opentelemetry_sdk = "0.30"
reqwest = { version = "0.12", default-features = false }
tokio = { version = "1", features = ["rt-multi-thread"] }
tracing = "0.1"
tracing-opentelemetry = "0.31"
tracing-subscriber = "0.3"
vmm-sys-util = "0.12"

[dev-dependencies]
http = "1"
regex = "1"
serde_json = "1"
