[package]
name = "tracing_tool"
version = "0.1.0"
edition = "2021"
publish = false

[dependencies]
rand = "=0.8.8"
plotly = { version = "=0.8.4", features = ["kaleido"] }
open = "=5.4.5"
serde = { version = "=1.0.229", features = ["derive"] }
toml = "=0.8.23"
clap-serde-derive = "=0.2.1"
