[package]
name = "resume_workbench"
version = "0.1.0"
edition = "2021"
publish = false

[dependencies]
serde = { version = "=1.0.229", features = ["derive"] }
serde_json = "=1.0.154"
reqwest = { version = "=0.12.28", default-features = false, features = ["json"] }
sha2 = "=0.10.9"
lopdf = "=0.46.0"
atomicwrites = "=0.4.4"
dotenvy = "=0.15.7"
keyring = { version = "=3.6.3", default-features = false }
thiserror = "=2.0.21"
tokio = { version = "=1.54.1", features = ["time", "net", "rt-multi-thread"] }
axum = "0.8"
tower-http = { version = "0.6", features = ["cors"] }
