[package]
name = "multipart_upload"
version = "0.1.0"
edition = "2021"
publish = false

[dependencies]
bytes = "*"
md-5 = "*"
base64 = "*"
futures = "*"
aws-sdk-s3 = { version = "*", default-features = false }
