[package]
name = "depsize"
version = "0.1.0"
edition = "2021"
publish = false

[dependencies]
anyhow = "=1.0.104"
ignore = "=0.4.33"
semver = "=1.0.28"
tokio = { version = "=1.54.1", features = ["fs", "macros", "rt-multi-thread"] }
