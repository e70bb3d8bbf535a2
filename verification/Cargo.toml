[package]
name = "agent_deck"
version = "0.1.0"
edition = "2021"
publish = false

[dependencies]
serde = { version = "=1.0.229", features = ["derive"] }
serde_json = "=1.0.154"
rusqlite = { version = "=0.41.1", features = ["bundled"] }
anyhow = "=1.0.104"
thiserror = "=2.0.21"
tempfile = "=3.27.0"
