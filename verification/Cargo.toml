[package]
name = "nparrot"
version = "0.1.0"
edition = "2021"
publish = false

[dependencies]
clap = { version = "4", features = ["derive", "env"] }
dotenv = "0.15"
env_logger = "0.11"
log = "0.4"
nostr-sdk = { version = "0.42", features = ["nip59"] }
rmcp = { version = "0.1", features = ["server", "transport-io"] }
serde = { version = "1", features = ["derive"] }
tokio = { version = "1", features = ["full"] }
