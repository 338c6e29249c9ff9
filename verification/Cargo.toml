[package]
name = "burn_sparse"
version = "0.1.0"
edition = "2021"
publish = false

[dependencies]
rand = "0.8"
burn-core = { version = "0.16", default-features = false, features = ["std"] }
serde = { version = "1", features = ["derive"] }
thiserror = "1"
memmap2 = "0.9"
