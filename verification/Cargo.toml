[package]
name = "sugo"
version = "0.1.0"
edition = "2021"
publish = false

[dependencies]
sha2 = "0.10"
chrono = "0.4"
uuid = { version = "1", features = ["v4"] }
serde = { version = "1", features = ["derive"] }
serde_json = "1"
schemars = "*"
rusqlite = { version = "*", features = ["bundled"] }
tokio = { version = "1", features = ["full"] }
axum = "*"
reqwest = { version = "*", default-features = false, features = ["json"] }
rmcp = { version = "*", features = ["server", "macros", "transport-io"] }
anyhow = "1"
async-trait = "*"
