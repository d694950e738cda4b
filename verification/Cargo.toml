[package]
name = "jetbrains_search_provider"
version = "0.1.0"
edition = "2021"
publish = false

[dependencies]
anyhow = "1"
clap = { version = "4", features = ["cargo"] }
tracing = "0.1"
tracing-futures = "0.2"
