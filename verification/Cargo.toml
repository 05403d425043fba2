[package]
name = "lmm"
version = "0.1.0"
edition = "2021"
publish = false

[dependencies]
smol_str = "0.3.7"
data-classes = "0.0.0-19"
tokio = { version = "1", features = ["full"] }
tower-lsp = "0.20"
