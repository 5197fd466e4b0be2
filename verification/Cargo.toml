[package]
name = "monocore"
version = "0.1.0"
edition = "2021"
publish = false

[dependencies]
typed-path = "*"
chrono = "0.4"
users = "0.11"
hex = "0.4"
anyhow = "1"
ipld-core = "*"
multihash-codetable = { version = "*", features = ["blake3"] }
serde_ipld_dagcbor = "*"
serde = { version = "1", features = ["derive"] }
tokio = { version = "1", features = ["full"] }
bytes = "1"
nfsserve = "*"
intaglio = "1"
thiserror = "*"
async-trait = "*"
futures = "*"
