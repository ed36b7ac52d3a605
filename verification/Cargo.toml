[package]
name = "solhat"
version = "0.1.0"
edition = "2021"
publish = false

[dependencies]
num_cpus = "*"
anyhow = "*"
serde = { version = "*", features = ["derive"] }
toml = "*"
sciimg = "*"
sun = "*"
rayon = "*"
