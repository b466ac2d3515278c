[package]
name = "dot_parser"
version = "0.1.0"
edition = "2021"
publish = false

[dependencies]
anyhow = "1"
log = "0.4"
petgraph = "*"
serde = { version = "1", features = ["derive"] }
thiserror = "*"
