[package]
name = "tool_search"
version = "0.1.0"
edition = "2021"
publish = false

[dependencies]
anyhow = "1"
async-trait = "0.1"
serde_json = "1"
tracing = "0.1"
