[package]
name = "tak"
version = "0.1.0"
edition = "2021"
publish = false

[dependencies]
clap = { version = "3", features = ["derive"] }
git2 = { version = "*", default-features = false }
semver = "0.11"

[dev-dependencies]
regex = "1"
