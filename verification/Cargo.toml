[package]
name = "grammar_resolve"
version = "0.1.0"
edition = "2021"
publish = false

[dependencies]
tokio = { version = "1", features = ["rt-multi-thread", "macros", "sync"] }
serde_json = { version = "1", features = ["preserve_order"] }
