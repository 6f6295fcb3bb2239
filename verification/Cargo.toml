[package]
name = "phpmd_lsp"
version = "0.1.0"
edition = "2021"
publish = false

[dependencies]
anyhow = "1"
lz4_flex = "0.11"
regex = "1"
serde = { version = "1", features = ["derive"] }
serde_json = "1"
sha2 = "0.10"
tokio = { version = "1", features = ["io-std", "macros", "process", "rt-multi-thread", "sync", "time"] }
tower-lsp = "0.20"
url = "2"
uuid = { version = "1", features = ["v4"] }
