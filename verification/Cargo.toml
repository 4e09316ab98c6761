[package]
name = "external_node"
version = "0.1.0"
edition = "2021"
publish = false

[dependencies]
anyhow = "1"
semver = "1"
tracing = "0.1"
jsonrpsee = { version = "=0.23.2", default-features = false, features = ["client-core", "jsonrpsee-types"] }
serde_json = "1"
zksync_concurrency = "=0.8.0"
zksync_consensus_executor = "=0.8.0"
zksync_consensus_roles = "=0.8.0"
zksync_consensus_storage = "=0.8.0"
zksync_protobuf = "=0.8.0"
