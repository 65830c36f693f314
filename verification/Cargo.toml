[package]
name = "palpatine"
version = "0.1.0"
edition = "2021"
publish = false

[dependencies]
clap = { version = "4", features = ["cargo"] }
git2 = { version = "*", default-features = false }
log = "0.4"
path-clean = "*"
serde = { version = "1", features = ["derive"] }
serde_json = "1"
stderrlog = "*"
