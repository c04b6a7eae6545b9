[package]
name = "mcp_wsl"
version = "0.1.0"
edition = "2021"
publish = false

[dependencies]
anyhow = "1"
axum = "0.8"
chrono = "0.4"
clap = { version = "4", features = ["derive"] }
glob = "0.3"
hex = "0.4"
libc = "0.2"
rmcp = { version = "0.1", features = ["server", "transport-io"] }
serde_json = "1"
sysinfo = "0.33"
tokio = { version = "1", features = ["full"] }
tower-http = { version = "0.6", features = ["cors"] }
