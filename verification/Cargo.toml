[package]
name = "query_builder"
version = "0.1.0"
edition = "2021"
publish = false

[dependencies]
erased-serde = "0.3"
surrealdb = { version = "1", default-features = false }

[dev-dependencies]
serde = "1"
serde_json = "1"
