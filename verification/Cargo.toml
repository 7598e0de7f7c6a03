[package]
name = "ruma_api"
version = "0.1.0"
edition = "2021"
publish = false

[dependencies]
http = "1"
percent-encoding = "2"
serde_json = "1"
serde_urlencoded = "0.7"
