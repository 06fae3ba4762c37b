[package]
name = "cargo_scout"
version = "0.1.0"
edition = "2021"
publish = false

[dependencies]
cargo_toml = "*"
colored = "*"
git2 = "*"
serde = { version = "*", features = ["derive"] }
serde_json = "*"
structopt = "*"
thiserror = "*"
