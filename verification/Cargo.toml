[package]
name = "cc_policy"
version = "0.1.0"
edition = "2021"
publish = false

[dependencies]
serde_yaml = "0.9"
serde = { version = "1", features = ["derive"] }
serde_json = "1"
anyhow = "1"
base64 = "0.13"
clap = { version = "3", features = ["derive"] }
checked_command = "*"
oci-spec = "*"
