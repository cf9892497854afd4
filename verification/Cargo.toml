[package]
name = "record_update"
version = "0.1.0"
edition = "2021"
publish = false

[dependencies]
aws-sdk-dynamodb = "0.17"
egnitely_client = "*"
serde = { version = "1", features = ["derive"] }
serde_dynamo = { version = "4", features = ["aws-sdk-dynamodb+0_17"] }
serde_json = "1"
