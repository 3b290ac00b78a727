[package]
name = "overlay_node"
version = "0.1.0"
edition = "2021"
publish = false

[dependencies]
anyhow = "1"
bimap = "0.6"
log = "0.4"
nalgebra = "*"
petgraph = "0.6"
plotters = { version = "0.3", default-features = false }
rand = "0.8"
serde = { version = "1", features = ["derive"] }
serde_json = "1"
thiserror = "1"
