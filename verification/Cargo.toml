[package]
name = "tlweave"
version = "0.1.0"
edition = "2021"
publish = false

[dependencies]
petgraph = "*"
indexmap = "*"
anyhow = "*"
clap = { version = "*", features = ["derive"] }
reqwest = { version = "*", features = ["json"] }
rusqlite = { version = "*", features = ["bundled"] }
serde_json = "*"
tokio = { version = "*", features = ["macros", "rt"] }
