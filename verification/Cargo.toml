[package]
name = "tunesync"
version = "0.1.0"
edition = "2021"
publish = false

[dependencies]
anyhow = "*"
clap = { version = "*", features = ["derive"] }
colog = "*"
csv = "*"
log = "*"
serde = { version = "*", features = ["derive"] }
spotify-rs = "*"
symphonia = "*"
tokio = { version = "*", features = ["macros", "rt-multi-thread", "time"] }
