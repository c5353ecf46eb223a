[package]
name = "upsilon_dev"
version = "0.1.0"
edition = "2021"
publish = false

[dependencies]
anyhow = "=1.0.104"
clap = { version = "=4.6.7", features = ["derive"] }
colored = "=2.2.0"
ctrlc = "3"
glob = "=0.3.4"
home = "=0.5.12"
libc = "0.2"
log = "=0.4.35"
path-slash = "=0.2.1"
pretty_env_logger = "=0.5.0"
procfs = { version = "0.16", default-features = false }
reqwest = { version = "=0.11.27", default-features = false, features = ["json", "rustls-tls"] }
rustyline = "=12.0.0"
serde = { version = "=1.0.229", features = ["derive"] }
serde_json = "=1.0.154"
tokio = { version = "=1.54.1", features = ["rt-multi-thread", "macros"] }
toml_edit = "=0.19.15"
