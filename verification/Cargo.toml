[package]
name = "stage_pipelines"
version = "0.1.0"
edition = "2021"
publish = false

[dependencies]
tokenizers = "0.13"
serde_json = "1"
