[package]
name = "stack_sync"
version = "0.1.0"
edition = "2021"

[dependencies]
anyhow = "*"
komodo_client = "*"
tokio = { version = "*", features = ["macros", "rt-multi-thread"] }
toml = "*"
