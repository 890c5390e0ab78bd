[package]
name = "graph_rank"
version = "0.1.0"
edition = "2021"
publish = false

[dependencies]
futures = "0.3"
neo4rs = "0.6"
rand = "0.8"
serde_yaml = "0.9"
tokio = { version = "1", features = ["macros", "rt-multi-thread"] }
