[package]
name = "rt_easy"
version = "0.1.0"
edition = "2021"
publish = false

[dependencies]
ansi_term = "=0.12.1"
textwrap = "=0.11.0"
thiserror = "=1.0.69"
structopt = "=0.3.26"
anyhow = "=1.0.104"

[dev-dependencies]
serde_json = "=1.0.154"
