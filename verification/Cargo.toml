[package]
name = "pcm_flow"
version = "0.1.0"
edition = "2021"

[dependencies]
sample = "=0.6.0"

[dev-dependencies]
petgraph = "=0.8.3"
